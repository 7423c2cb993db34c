use aim2go::codec::{parse_config, serialize_config};
use aim2go::config::{GameConfig, Multiplier};
use aim2go::editor::{
    apply_emulation, apply_overlay, apply_yolo, interpret_i16_reply, interpret_i8_reply,
    interpret_mul_reply, interpret_text_reply, next_state, EditorState,
};

#[test]
fn menu_transitions() {
    assert_eq!(next_state(EditorState::Menu, 0), EditorState::EditYolo);
    assert_eq!(next_state(EditorState::Menu, 1), EditorState::EditOverlay);
    assert_eq!(next_state(EditorState::Menu, 2), EditorState::EditEmulation);
    assert_eq!(next_state(EditorState::Menu, 3), EditorState::Done);
}

#[test]
fn section_transitions_return_to_menu() {
    assert_eq!(next_state(EditorState::EditYolo, 0), EditorState::Menu);
    assert_eq!(next_state(EditorState::EditOverlay, 0), EditorState::Menu);
    assert_eq!(next_state(EditorState::EditEmulation, 0), EditorState::Menu);
    assert_eq!(next_state(EditorState::Done, 0), EditorState::Done);
}

#[test]
fn empty_replies_keep_current_values() {
    let current = "coco.pt".to_string();
    let kept = interpret_text_reply("", &current).expect("empty reply keeps the value");
    assert_eq!(kept, "coco.pt");
    assert_eq!(interpret_i8_reply("", 50), Some(50));
    assert_eq!(interpret_i16_reply("", 640), Some(640));
    assert_eq!(
        interpret_mul_reply("", Multiplier { thousandths: 1000 }),
        Some(Multiplier { thousandths: 1000 })
    );
}

#[test]
fn typed_replies_replace_values() {
    let current = "red".to_string();
    let replaced = interpret_text_reply("purple", &current).expect("typed reply replaces");
    assert_eq!(replaced, "purple");
    assert_eq!(interpret_i8_reply("75", 50), Some(75));
    assert_eq!(interpret_i8_reply("-4", 50), Some(-4));
    assert_eq!(interpret_i16_reply("1280", 640), Some(1280));
    assert_eq!(
        interpret_mul_reply("2.5", Multiplier { thousandths: 1000 }),
        Some(Multiplier { thousandths: 2500 })
    );
}

#[test]
fn invalid_replies_are_asked_again() {
    let current = "red".to_string();
    assert_eq!(interpret_text_reply("two\nlines", &current), None);
    assert_eq!(interpret_i8_reply("fifty", 50), None);
    assert_eq!(interpret_i8_reply("128", 50), None);
    assert_eq!(interpret_i8_reply("-129", 50), None);
    assert_eq!(interpret_i8_reply("007", 50), None);
    assert_eq!(interpret_i16_reply("40000", 640), None);
    assert_eq!(interpret_mul_reply("fast", Multiplier { thousandths: 1000 }), None);
}

#[test]
fn editing_one_field_persists_only_that_field() {
    let before = GameConfig::default();
    let mut edited = GameConfig::default();
    // In the epochs form, the user accepts the model and image size and
    // types 75 for the epoch count.
    let model = interpret_text_reply("", &edited.yolo.base_model).unwrap();
    let epochs = interpret_i8_reply("75", edited.yolo.epochs).unwrap();
    let img_size = interpret_i16_reply("", edited.yolo.img_size).unwrap();
    apply_yolo(&mut edited, model, epochs, img_size);
    let saved = serialize_config(&edited);
    let back = parse_config(&saved).expect("saved record must parse");
    assert_eq!(back.yolo.epochs, 75);
    assert_eq!(back.yolo.base_model, before.yolo.base_model);
    assert_eq!(back.yolo.img_size, before.yolo.img_size);
    assert_eq!(back.overlay, before.overlay);
    assert_eq!(back.emulation, before.emulation);
}

#[test]
fn scenario_new_then_settings() {
    // A fresh workspace starts from the defaults; the user opens the
    // overlay form, changes the enemy color to purple, keeps the rest,
    // and saves.
    let mut config = GameConfig::default();
    let enemy = interpret_text_reply("purple", &config.overlay.enemy_color).unwrap();
    let ring = interpret_text_reply("", &config.overlay.silent_aim_ring_color).unwrap();
    let crosshair = interpret_text_reply("", &config.overlay.crosshair_color).unwrap();
    apply_overlay(&mut config, enemy, ring, crosshair);
    let saved = serialize_config(&config);
    assert!(saved.contains("  enemy_color: purple\n"));
    let back = parse_config(&saved).expect("saved record must parse");
    let defaults = GameConfig::default();
    assert_eq!(back.overlay.enemy_color, "purple");
    assert_eq!(back.overlay.silent_aim_ring_color, "blue");
    assert_eq!(back.overlay.crosshair_color, "white");
    assert_eq!(back.yolo, defaults.yolo);
    assert_eq!(back.emulation, defaults.emulation);
}

#[test]
fn emulation_form_updates_all_three_fields() {
    let mut config = GameConfig::default();
    let mul = interpret_mul_reply("1.25", config.emulation.humanization_multiplier).unwrap();
    let radius = interpret_i8_reply("9", config.emulation.silent_aim_radius).unwrap();
    let reaction = interpret_i8_reply("", config.emulation.reaction_time).unwrap();
    apply_emulation(&mut config, mul, radius, reaction);
    assert_eq!(config.emulation.humanization_multiplier, Multiplier { thousandths: 1250 });
    assert_eq!(config.emulation.silent_aim_radius, 9);
    assert_eq!(config.emulation.reaction_time, 50);
    let back = parse_config(&serialize_config(&config)).expect("saved record must parse");
    assert_eq!(back, config);
}
