use aim2go::workspace::{
    config_path, descriptor_path, descriptor_text, workspace_dirs, workspace_root,
};

#[test]
fn workspace_layout_is_fixed() {
    let dirs = workspace_dirs("valorant");
    assert_eq!(dirs.len(), 5);
    assert_eq!(dirs[0], "games/valorant/data/images/train");
    assert_eq!(dirs[1], "games/valorant/data/images/val");
    assert_eq!(dirs[2], "games/valorant/data/labels/train");
    assert_eq!(dirs[3], "games/valorant/data/labels/val");
    assert_eq!(dirs[4], "games/valorant/data/model");
}

#[test]
fn workspace_paths() {
    assert_eq!(workspace_root("valorant"), "games/valorant");
    assert_eq!(descriptor_path("valorant"), "games/valorant/data/custom.yaml");
    assert_eq!(config_path("valorant"), "games/valorant/config.yaml");
}

#[test]
fn descriptor_has_fixed_default_content() {
    assert_eq!(
        descriptor_text(),
        "train: data/images/train\nval: data/images/val\nnc: 1\nnames: [\"enemy\"]\n"
    );
}
