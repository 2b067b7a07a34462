use danger_maze::codec::{level_to_json, parse_level};
use danger_maze::editor::{BuildState, LevelBuildMsg, LevelBuilder};
use danger_maze::geom::Point;
use danger_maze::input::KeyCode;

#[test]
fn dragging_in_block_mode_authors_a_block() {
    let mut b = LevelBuilder::new(0);
    assert_eq!(b.state, BuildState::Blocks);
    b.update(LevelBuildMsg::MouseDown(Point::new(100_000, 150_000)));
    b.update(LevelBuildMsg::MouseMove(Point::new(300_000, 250_000)));
    b.update(LevelBuildMsg::MouseUp(Point::new(300_000, 250_000)));
    b.tick(16);
    assert_eq!(b.blocks.len(), 1);
    assert_eq!(
        (b.blocks[0].pos.loc.x, b.blocks[0].pos.loc.y, b.blocks[0].pos.width,
            b.blocks[0].pos.height),
        (100_000, 150_000, 200_000, 100_000)
    );
    assert_eq!(b.circles.len(), 0);
    // the gesture is consumed: another tick adds nothing
    b.tick(32);
    assert_eq!(b.blocks.len(), 1);
}

#[test]
fn dragging_in_circle_mode_authors_a_disc_with_the_dragged_radius() {
    let mut b = LevelBuilder::new(0);
    b.update(LevelBuildMsg::KeyDown(KeyCode::KeyC));
    assert_eq!(b.state, BuildState::Circles);
    b.update(LevelBuildMsg::MouseDown(Point::new(100_000, 100_000)));
    b.update(LevelBuildMsg::MouseMove(Point::new(103_000, 104_000)));
    b.update(LevelBuildMsg::MouseUp(Point::new(103_000, 104_000)));
    b.tick(16);
    assert_eq!(b.circles.len(), 1);
    assert_eq!(
        (b.circles[0].pos.loc.x, b.circles[0].pos.loc.y, b.circles[0].pos.size),
        (100_000, 100_000, 5_000)
    );
}

#[test]
fn placing_player_and_goal_and_clearing() {
    let mut b = LevelBuilder::new(0);
    b.update(LevelBuildMsg::KeyDown(KeyCode::KeyP));
    b.update(LevelBuildMsg::MouseDown(Point::new(50_000, 60_000)));
    b.update(LevelBuildMsg::MouseUp(Point::new(50_000, 60_000)));
    assert_eq!((b.player.loc.x, b.player.loc.y), (50_000, 60_000));
    b.update(LevelBuildMsg::KeyDown(KeyCode::KeyG));
    b.update(LevelBuildMsg::MouseDown(Point::new(900_000, 500_000)));
    b.update(LevelBuildMsg::MouseUp(Point::new(900_000, 500_000)));
    assert_eq!((b.goal.circle.loc.x, b.goal.circle.loc.y), (900_000, 500_000));
    // author one block, then wipe the hazards
    b.update(LevelBuildMsg::KeyDown(KeyCode::KeyB));
    b.update(LevelBuildMsg::MouseDown(Point::new(10_000, 10_000)));
    b.update(LevelBuildMsg::MouseMove(Point::new(20_000, 20_000)));
    b.update(LevelBuildMsg::MouseUp(Point::new(20_000, 20_000)));
    b.tick(16);
    assert_eq!(b.blocks.len(), 1);
    b.update(LevelBuildMsg::KeyDown(KeyCode::KeyQ));
    assert_eq!(b.blocks.len(), 0);
    assert_eq!(b.circles.len(), 0);
}

#[test]
fn saving_builds_a_document_that_round_trips() {
    let mut b = LevelBuilder::new(0);
    b.update(LevelBuildMsg::MouseDown(Point::new(400_000, 300_000)));
    b.update(LevelBuildMsg::MouseMove(Point::new(500_000, 350_000)));
    b.update(LevelBuildMsg::MouseUp(Point::new(500_000, 350_000)));
    b.tick(16);
    let saved = b.update(LevelBuildMsg::KeyDown(KeyCode::KeyS)).expect("save yields a document");
    assert_eq!((saved.player.x, saved.player.y), (100_000, 100_000));
    assert_eq!((saved.goal.x, saved.goal.y), (1_000_000, 700_000));
    assert_eq!(saved.danger_blocks.len(), 1);
    let text = level_to_json(&saved);
    let back = parse_level(&text).expect("saved document must parse");
    assert_eq!(back.danger_blocks.len(), 1);
    assert_eq!(
        (back.danger_blocks[0].x, back.danger_blocks[0].y, back.danger_blocks[0].w,
            back.danger_blocks[0].h),
        (400_000, 300_000, 100_000, 50_000)
    );
    assert_eq!((back.player.x, back.player.y), (saved.player.x, saved.player.y));
    assert_eq!((back.goal.x, back.goal.y), (saved.goal.x, saved.goal.y));
}
