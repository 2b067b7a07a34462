use danger_maze::codec::{level_to_json, parse_level};
use danger_maze::level::{LevelBlockModel, LevelCircleModel, LevelGoalModel, LevelImageModel,
    LevelModel, LevelPlayerModel};

fn scenario_level() -> LevelModel {
    LevelModel {
        player: LevelPlayerModel { x: 100_000, y: 100_000 },
        goal: LevelGoalModel { x: 1_100_000, y: 400_000 },
        danger_blocks: vec![LevelBlockModel { x: 500_000, y: 300_000, w: 200_000, h: 50_000 }],
        danger_circles: Vec::new(),
        images: Vec::new(),
    }
}

fn assert_levels_equal(a: &LevelModel, b: &LevelModel) {
    assert_eq!((a.player.x, a.player.y), (b.player.x, b.player.y));
    assert_eq!((a.goal.x, a.goal.y), (b.goal.x, b.goal.y));
    assert_eq!(a.danger_blocks.len(), b.danger_blocks.len());
    for (x, y) in a.danger_blocks.iter().zip(b.danger_blocks.iter()) {
        assert_eq!((x.x, x.y, x.w, x.h), (y.x, y.y, y.w, y.h));
    }
    assert_eq!(a.danger_circles.len(), b.danger_circles.len());
    for (x, y) in a.danger_circles.iter().zip(b.danger_circles.iter()) {
        assert_eq!((x.x, x.y, x.r), (y.x, y.y, y.r));
    }
    assert_eq!(a.images.len(), b.images.len());
    for (x, y) in a.images.iter().zip(b.images.iter()) {
        assert_eq!(x.filename, y.filename);
        assert_eq!((x.x, x.y), (y.x, y.y));
    }
}

#[test]
fn canonical_text_matches_the_wire_contract() {
    let text = level_to_json(&scenario_level());
    assert_eq!(
        text,
        "{\"player\":{\"x\":100,\"y\":100},\"goal\":{\"x\":1100,\"y\":400},\"danger_blocks\":[{\"x\":500,\"y\":300,\"w\":200,\"h\":50}],\"danger_circles\":[],\"images\":[]}"
    );
}

#[test]
fn scenario_document_parses_to_the_exact_values() {
    let text = "{\"player\":{\"x\":100,\"y\":100}, \"goal\":{\"x\":1100,\"y\":400}, \
                \"danger_blocks\":[{\"x\":500,\"y\":300,\"w\":200,\"h\":50}], \
                \"danger_circles\":[], \"images\":[]}";
    let m = parse_level(text).expect("scenario document must parse");
    assert_levels_equal(&m, &scenario_level());
}

#[test]
fn round_trip_echoes_every_hazard_exactly() {
    let level = LevelModel {
        player: LevelPlayerModel { x: 12_500, y: -100_000 },
        goal: LevelGoalModel { x: 1_000_001, y: 700_000 },
        danger_blocks: vec![
            LevelBlockModel { x: 500_000, y: 300_000, w: 200_000, h: 50_000 },
            LevelBlockModel { x: -10_500, y: 0, w: -42, h: 999 },
        ],
        danger_circles: vec![LevelCircleModel { x: 640_000, y: 400_000, r: 75_250 }],
        images: vec![LevelImageModel { filename: String::from("assets/bg.png"), x: 1, y: 2 }],
    };
    let text = level_to_json(&level);
    let back = parse_level(&text).expect("canonical text must parse");
    assert_levels_equal(&back, &level);
}

#[test]
fn fractional_pixels_survive_the_round_trip() {
    // 10.5 px, 0.25 px, 0.001 px: all exact in milli-units
    let level = LevelModel {
        player: LevelPlayerModel { x: 10_500, y: 250 },
        goal: LevelGoalModel { x: 1, y: -1 },
        danger_blocks: Vec::new(),
        danger_circles: Vec::new(),
        images: Vec::new(),
    };
    let text = level_to_json(&level);
    assert!(text.contains("\"x\":10.5"));
    assert!(text.contains("\"y\":0.25"));
    assert!(text.contains("\"x\":0.001"));
    assert!(text.contains("\"y\":-0.001"));
    let back = parse_level(&text).expect("canonical text must parse");
    assert_levels_equal(&back, &level);
}

#[test]
fn field_order_and_whitespace_are_irrelevant() {
    let text = " { \"images\" : [ ] ,\n \"danger_circles\" : [ { \"r\" : 5 , \"x\" : 1 , \"y\" : 2 } ] ,\
                \t\"goal\" : { \"y\" : 400 , \"x\" : 1100 } ,\
                \"danger_blocks\" : [ ] ,\
                \"player\" : { \"x\" : 100 , \"y\" : 100 } } ";
    let m = parse_level(text).expect("reordered document must parse");
    assert_eq!((m.player.x, m.player.y), (100_000, 100_000));
    assert_eq!((m.goal.x, m.goal.y), (1_100_000, 400_000));
    assert_eq!(m.danger_blocks.len(), 0);
    assert_eq!(m.danger_circles.len(), 1);
    assert_eq!(
        (m.danger_circles[0].x, m.danger_circles[0].y, m.danger_circles[0].r),
        (1_000, 2_000, 5_000)
    );
    assert_eq!(m.images.len(), 0);
}

#[test]
fn malformed_documents_are_rejected() {
    // a required field is missing
    assert!(parse_level(
        "{\"player\":{\"x\":1,\"y\":2},\"goal\":{\"x\":3,\"y\":4},\"danger_blocks\":[],\"danger_circles\":[]}"
    ).is_none());
    // a field appears twice
    assert!(parse_level(
        "{\"player\":{\"x\":1,\"y\":2},\"player\":{\"x\":1,\"y\":2},\"goal\":{\"x\":3,\"y\":4},\"danger_blocks\":[],\"danger_circles\":[],\"images\":[]}"
    ).is_none());
    // an unknown field appears
    assert!(parse_level(
        "{\"player\":{\"x\":1,\"y\":2},\"goal\":{\"x\":3,\"y\":4},\"danger_blocks\":[],\"danger_circles\":[],\"images\":[],\"extra\":1}"
    ).is_none());
    // trailing text after the document
    assert!(parse_level(
        "{\"player\":{\"x\":1,\"y\":2},\"goal\":{\"x\":3,\"y\":4},\"danger_blocks\":[],\"danger_circles\":[],\"images\":[]}x"
    ).is_none());
    // a fourth fraction digit cannot be represented exactly
    assert!(parse_level(
        "{\"player\":{\"x\":1.0001,\"y\":2},\"goal\":{\"x\":3,\"y\":4},\"danger_blocks\":[],\"danger_circles\":[],\"images\":[]}"
    ).is_none());
    assert!(parse_level("").is_none());
    assert!(parse_level("[]").is_none());
}

#[test]
fn images_carry_their_filenames_through() {
    let text = "{\"player\":{\"x\":0,\"y\":0},\"goal\":{\"x\":0,\"y\":0},\"danger_blocks\":[],\
                \"danger_circles\":[],\"images\":[{\"filename\":\"a/b c.png\",\"x\":7,\"y\":-8}]}";
    let m = parse_level(text).expect("image document must parse");
    assert_eq!(m.images.len(), 1);
    assert_eq!(m.images[0].filename, "a/b c.png");
    assert_eq!((m.images[0].x, m.images[0].y), (7_000, -8_000));
}

#[test]
fn canonical_output_is_json_a_generic_parser_accepts() {
    let level = LevelModel {
        player: LevelPlayerModel { x: 100_000, y: 100_500 },
        goal: LevelGoalModel { x: 1_100_000, y: 400_000 },
        danger_blocks: vec![LevelBlockModel { x: -500, y: 300_000, w: 200_000, h: 50_000 }],
        danger_circles: vec![LevelCircleModel { x: 1_000, y: 2_000, r: 3_000 }],
        images: vec![LevelImageModel { filename: String::from("bg.png"), x: 0, y: 0 }],
    };
    let text = level_to_json(&level);
    let v: serde_json::Value = serde_json::from_str(&text).expect("canonical text must be JSON");
    assert_eq!(v["player"]["x"], serde_json::Value::from(100));
    assert_eq!(v["player"]["y"], serde_json::Value::from(100.5));
    assert_eq!(v["goal"]["x"], serde_json::Value::from(1100));
    assert_eq!(v["danger_blocks"][0]["x"], serde_json::Value::from(-0.5));
    assert_eq!(v["danger_circles"][0]["r"], serde_json::Value::from(3));
    assert_eq!(v["images"][0]["filename"], serde_json::Value::from("bg.png"));
}
