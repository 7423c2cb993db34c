use aim2go::codec::{parse_config, parse_mul_str, serialize_config};
use aim2go::config::{EmulationConfig, GameConfig, Multiplier, OverlayConfig, YoloConfig};

fn default_text() -> String {
    "yolo:\n  base_model: coco.pt\n  epochs: 50\n  img_size: 640\noverlay:\n  enemy_color: red\n  silent_aim_ring_color: blue\n  crosshair_color: white\nemulation:\n  humanization_multiplier: 1.0\n  silent_aim_radius: 5\n  reaction_time: 50\n".to_string()
}

#[test]
fn default_record_values() {
    let c = GameConfig::default();
    assert_eq!(c.yolo.base_model, "coco.pt");
    assert_eq!(c.yolo.epochs, 50);
    assert_eq!(c.yolo.img_size, 640);
    assert_eq!(c.overlay.enemy_color, "red");
    assert_eq!(c.overlay.silent_aim_ring_color, "blue");
    assert_eq!(c.overlay.crosshair_color, "white");
    assert_eq!(c.emulation.humanization_multiplier.thousandths, 1000);
    assert_eq!(c.emulation.silent_aim_radius, 5);
    assert_eq!(c.emulation.reaction_time, 50);
}

#[test]
fn serialize_default_is_exact() {
    let c = GameConfig::default();
    assert_eq!(serialize_config(&c), default_text());
}

#[test]
fn round_trip_default() {
    let c = GameConfig::default();
    let text = serialize_config(&c);
    let back = parse_config(&text).expect("default text must parse");
    assert_eq!(back, c);
}

#[test]
fn round_trip_custom_record() {
    let c = GameConfig {
        yolo: YoloConfig {
            base_model: "models/best v2.pt".to_string(),
            epochs: -3,
            img_size: 1280,
        },
        overlay: OverlayConfig {
            enemy_color: "hot pink".to_string(),
            silent_aim_ring_color: String::new(),
            crosshair_color: "#00ff00".to_string(),
        },
        emulation: EmulationConfig {
            humanization_multiplier: Multiplier { thousandths: 1250 },
            silent_aim_radius: -128,
            reaction_time: 127,
        },
    };
    let text = serialize_config(&c);
    let back = parse_config(&text).expect("serialized record must parse");
    assert_eq!(back, c);
}

#[test]
fn round_trip_small_multiplier() {
    let mut c = GameConfig::default();
    c.emulation.humanization_multiplier = Multiplier { thousandths: 50 };
    let text = serialize_config(&c);
    assert!(text.contains("  humanization_multiplier: 0.05\n"));
    let back = parse_config(&text).expect("serialized record must parse");
    assert_eq!(back, c);
}

#[test]
fn parse_missing_field_is_error() {
    let text = default_text().replace("  epochs: 50\n", "");
    assert!(parse_config(&text).is_err());
}

#[test]
fn parse_missing_section_is_error() {
    let text = default_text().replace(
        "overlay:\n  enemy_color: red\n  silent_aim_ring_color: blue\n  crosshair_color: white\n",
        "",
    );
    assert!(parse_config(&text).is_err());
}

#[test]
fn parse_wrong_typed_field_is_error() {
    let text = default_text().replace("  epochs: 50\n", "  epochs: fifty\n");
    assert!(parse_config(&text).is_err());
}

#[test]
fn parse_float_epochs_is_error() {
    let text = default_text().replace("  epochs: 50\n", "  epochs: 5.5\n");
    assert!(parse_config(&text).is_err());
}

#[test]
fn parse_out_of_range_field_is_error() {
    let text = default_text().replace("  epochs: 50\n", "  epochs: 200\n");
    assert!(parse_config(&text).is_err());
}

#[test]
fn parse_trailing_text_is_error() {
    let mut text = default_text();
    text.push_str("extra: 1\n");
    assert!(parse_config(&text).is_err());
}

#[test]
fn parse_empty_is_error() {
    assert!(parse_config("").is_err());
}

#[test]
fn multiplier_text_forms() {
    assert_eq!(parse_mul_str("1.0"), Some(1000));
    assert_eq!(parse_mul_str("1.25"), Some(1250));
    assert_eq!(parse_mul_str("0.05"), Some(50));
    assert_eq!(parse_mul_str("2.125"), Some(2125));
    assert_eq!(parse_mul_str("0.0"), Some(0));
    // Non-canonical or ill-typed forms are rejected.
    assert_eq!(parse_mul_str("1"), None);
    assert_eq!(parse_mul_str("1."), None);
    assert_eq!(parse_mul_str(".5"), None);
    assert_eq!(parse_mul_str("1.250"), None);
    assert_eq!(parse_mul_str("01.5"), None);
    assert_eq!(parse_mul_str("1.2345"), None);
    assert_eq!(parse_mul_str("-1.0"), None);
}
