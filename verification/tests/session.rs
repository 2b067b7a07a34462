use danger_maze::control::{GameControl, GameMsg, SessionState};
use danger_maze::geom::Point;
use danger_maze::level::{LevelBlockModel, LevelGoalModel, LevelModel, LevelPlayerModel};

fn scenario_level() -> LevelModel {
    LevelModel {
        player: LevelPlayerModel { x: 100_000, y: 100_000 },
        goal: LevelGoalModel { x: 1_100_000, y: 400_000 },
        danger_blocks: vec![LevelBlockModel { x: 500_000, y: 300_000, w: 200_000, h: 50_000 }],
        danger_circles: Vec::new(),
        images: Vec::new(),
    }
}

#[test]
fn new_session_requests_level_one() {
    let g = GameControl::new(1000);
    assert_eq!(g.state, SessionState::Loading);
    assert_eq!(g.pending_load, Some(1));
    assert_eq!(g.cur_level, 1);
    assert_eq!(g.cur_time, 0);
}

#[test]
fn ticks_are_no_ops_while_loading() {
    let mut g = GameControl::new(1000);
    let before_time = g.cur_time;
    let before_last = g.last_update;
    g.tick(5000);
    assert_eq!(g.state, SessionState::Loading);
    assert_eq!(g.cur_time, before_time);
    assert_eq!(g.last_update, before_last);
}

#[test]
fn load_completion_applies_the_document_atomically() {
    let mut g = GameControl::new(0);
    let req = g.update(GameMsg::LevelLoad(scenario_level()));
    assert_eq!(req, None);
    assert_eq!(g.state, SessionState::Play);
    assert_eq!(g.pending_load, None);
    assert_eq!((g.player.start.x, g.player.start.y), (100_000, 100_000));
    assert_eq!((g.player.loc.x, g.player.loc.y), (100_000, 100_000));
    assert_eq!((g.goal.circle.loc.x, g.goal.circle.loc.y), (1_100_000, 400_000));
    assert_eq!(g.blocks.len(), 1);
    assert_eq!(g.blocks[0].pos.loc.x, 500_000);
    assert_eq!(g.circles.len(), 0);
    assert_eq!(g.images.len(), 0);
    assert_eq!(g.cur_time, 0);
    assert_eq!(g.goal.confetti.len(), 0);
}

#[test]
fn unsolicited_level_load_is_ignored() {
    let mut g = GameControl::new(0);
    g.update(GameMsg::LevelLoad(scenario_level()));
    assert_eq!(g.state, SessionState::Play);
    // no request outstanding: a second completion changes nothing
    let px = g.player.start.x;
    let req = g.update(GameMsg::LevelLoad(LevelModel::new()));
    assert_eq!(req, None);
    assert_eq!(g.player.start.x, px);
    assert_eq!(g.state, SessionState::Play);
}

#[test]
fn second_load_request_is_rejected_while_one_is_pending() {
    let mut g = GameControl::new(0);
    // the level-1 request is still outstanding
    let req = g.update(GameMsg::LoadLevel(7));
    assert_eq!(req, None);
    assert_eq!(g.pending_load, Some(1));
}

#[test]
fn dragging_through_a_block_resets_the_player() {
    let mut g = GameControl::new(0);
    g.update(GameMsg::LevelLoad(scenario_level()));
    // pick the player up with a pointer-down on its center
    g.update(GameMsg::MouseDown(Point::new(100_000, 100_000)));
    assert!(g.player.is_moving);
    // drag straight into the block
    g.update(GameMsg::MouseMove(Point::new(600_000, 325_000)));
    g.tick(16);
    assert_eq!((g.player.loc.x, g.player.loc.y), (100_000, 100_000));
    assert!(!g.player.is_moving);
    assert_eq!(g.state, SessionState::Play);
    // elapsed time accumulated
    assert_eq!(g.cur_time, 16);
}

#[test]
fn reaching_the_goal_wins_and_confetti_follows() {
    let mut g = GameControl::new(0);
    g.update(GameMsg::LevelLoad(scenario_level()));
    g.update(GameMsg::MouseDown(Point::new(100_000, 100_000)));
    // drag around the hazard is not modeled: teleport straight onto the goal
    g.update(GameMsg::MouseMove(Point::new(1_100_000, 400_000)));
    g.tick(16);
    assert_eq!(g.state, SessionState::Win);
    // elapsed time freezes once won
    let frozen = g.cur_time;
    g.tick(100);
    assert_eq!(g.cur_time, frozen);
    // confetti begins spawning within one cooldown interval
    g.tick(16 + 250);
    g.tick(16 + 251);
    assert!(g.goal.confetti.len() >= 1);
}

#[test]
fn win_is_left_only_by_a_pointer_down() {
    let mut g = GameControl::new(0);
    g.update(GameMsg::LevelLoad(scenario_level()));
    g.update(GameMsg::MouseDown(Point::new(100_000, 100_000)));
    g.update(GameMsg::MouseMove(Point::new(1_100_000, 400_000)));
    g.tick(16);
    assert_eq!(g.state, SessionState::Win);
    // further movement and ticks never leave the win state
    g.update(GameMsg::MouseMove(Point::new(600_000, 325_000)));
    g.tick(32);
    assert_eq!(g.state, SessionState::Win);
    g.update(GameMsg::MouseUp(Point::new(600_000, 325_000)));
    g.tick(48);
    assert_eq!(g.state, SessionState::Win);
    // the next pointer-down requests the following level
    let req = g.update(GameMsg::MouseDown(Point::new(900_000, 700_000)));
    assert_eq!(req, Some(2));
    assert_eq!(g.state, SessionState::Loading);
    assert_eq!(g.cur_level, 2);
    assert_eq!(g.pending_load, Some(2));
}

#[test]
fn confetti_is_empty_after_entering_play_and_after_every_non_win_tick() {
    let mut g = GameControl::new(0);
    g.update(GameMsg::LevelLoad(scenario_level()));
    assert_eq!(g.goal.confetti.len(), 0);
    // even a list stuffed from outside is dropped by the next tick
    g.goal.confetti.push(danger_maze::confetti::Confetti::new(0, 0, 100));
    g.tick(16);
    assert_eq!(g.state, SessionState::Play);
    assert_eq!(g.goal.confetti.len(), 0);
}

#[test]
fn key_events_and_null_do_nothing() {
    let mut g = GameControl::new(0);
    g.update(GameMsg::LevelLoad(scenario_level()));
    let before = (g.cur_time, g.cur_level, g.player.loc.x);
    assert_eq!(g.update(GameMsg::KeyDown(danger_maze::input::KeyCode::KeyQ)), None);
    assert_eq!(g.update(GameMsg::KeyUp(danger_maze::input::KeyCode::KeyQ)), None);
    assert_eq!(g.update(GameMsg::Null), None);
    assert_eq!(before, (g.cur_time, g.cur_level, g.player.loc.x));
}

#[test]
fn time_string_renders_seconds_and_centiseconds() {
    let mut g = GameControl::new(0);
    g.update(GameMsg::LevelLoad(scenario_level()));
    g.cur_time = 63_123;
    assert_eq!(g.get_time_str(), "Time: 063.12");
    g.cur_time = 0;
    assert_eq!(g.get_time_str(), "Time: 000.00");
    g.cur_time = 1_000_000_000;
    assert_eq!(g.get_time_str(), "Time: 999.00");
    // a goal parked outside the field blanks the display
    g.goal.circle.loc.x = 2_000_000;
    assert_eq!(g.get_time_str(), "");
}

#[test]
fn time_formatting_pads_and_saturates() {
    assert_eq!(danger_maze::timefmt::format_time_3_digits(7), "007");
    assert_eq!(danger_maze::timefmt::format_time_3_digits(42), "042");
    assert_eq!(danger_maze::timefmt::format_time_3_digits(987), "987");
    assert_eq!(danger_maze::timefmt::format_time_3_digits(1234), "999");
    assert_eq!(danger_maze::timefmt::format_time_2_digits(7), "07");
    assert_eq!(danger_maze::timefmt::format_time_2_digits(42), "42");
}
