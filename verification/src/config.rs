//! The configuration record of a workspace and its mathematical model.
//!
//! Each executable struct has a view struct over sequences of characters and
//! unbounded integers; every contract in the crate speaks of those views.
//! The humanization multiplier is kept as a fixed-point number of
//! thousandths, so that `1.25` is stored as `1250`.

use vstd::prelude::*;

verus! {

/// Model of the model-training settings.
pub struct YoloView {
    pub base_model: Seq<char>,
    pub epochs: int,
    pub img_size: int,
}

/// Model of the overlay color settings.
pub struct OverlayView {
    pub enemy_color: Seq<char>,
    pub silent_aim_ring_color: Seq<char>,
    pub crosshair_color: Seq<char>,
}

/// Model of the emulation timing settings; the multiplier is in thousandths.
pub struct EmulationView {
    pub humanization_multiplier: int,
    pub silent_aim_radius: int,
    pub reaction_time: int,
}

/// Model of the whole configuration record.
pub struct ConfigView {
    pub yolo: YoloView,
    pub overlay: OverlayView,
    pub emulation: EmulationView,
}

/// A text value fits on one line of the configuration file.
pub open spec fn line_ok(s: Seq<char>) -> bool {
    !s.contains('\n')
}

impl YoloView {
    pub open spec fn wf(self) -> bool {
        &&& line_ok(self.base_model)
        &&& i8::MIN <= self.epochs <= i8::MAX
        &&& i16::MIN <= self.img_size <= i16::MAX
    }
}

impl OverlayView {
    pub open spec fn wf(self) -> bool {
        &&& line_ok(self.enemy_color)
        &&& line_ok(self.silent_aim_ring_color)
        &&& line_ok(self.crosshair_color)
    }
}

impl EmulationView {
    pub open spec fn wf(self) -> bool {
        &&& 0 <= self.humanization_multiplier <= u32::MAX
        &&& i8::MIN <= self.silent_aim_radius <= i8::MAX
        &&& i8::MIN <= self.reaction_time <= i8::MAX
    }
}

impl ConfigView {
    pub open spec fn wf(self) -> bool {
        self.yolo.wf() && self.overlay.wf() && self.emulation.wf()
    }
}

/// Fixed-point stand-in for the humanization multiplier: a count of
/// thousandths, so `1.0` is `Multiplier { thousandths: 1000 }`.
#[derive(Clone, Copy, Debug, PartialEq, Eq, Structural)]
pub struct Multiplier {
    pub thousandths: u32,
}

/// Settings of the external model-training job.
#[derive(Debug)]
pub struct YoloConfig {
    pub base_model: String,
    pub epochs: i8,
    pub img_size: i16,
}

/// Colors drawn by the external overlay.
#[derive(Debug)]
pub struct OverlayConfig {
    pub enemy_color: String,
    pub silent_aim_ring_color: String,
    pub crosshair_color: String,
}

/// Timing of the external emulation.
#[derive(Debug)]
pub struct EmulationConfig {
    pub humanization_multiplier: Multiplier,
    pub silent_aim_radius: i8,
    pub reaction_time: i8,
}

/// The whole configuration record of one workspace.
#[derive(Debug)]
pub struct GameConfig {
    pub yolo: YoloConfig,
    pub overlay: OverlayConfig,
    pub emulation: EmulationConfig,
}

impl View for YoloConfig {
    type V = YoloView;

    open spec fn view(&self) -> YoloView {
        YoloView {
            base_model: self.base_model@,
            epochs: self.epochs as int,
            img_size: self.img_size as int,
        }
    }
}

impl View for OverlayConfig {
    type V = OverlayView;

    open spec fn view(&self) -> OverlayView {
        OverlayView {
            enemy_color: self.enemy_color@,
            silent_aim_ring_color: self.silent_aim_ring_color@,
            crosshair_color: self.crosshair_color@,
        }
    }
}

impl View for EmulationConfig {
    type V = EmulationView;

    open spec fn view(&self) -> EmulationView {
        EmulationView {
            humanization_multiplier: self.humanization_multiplier.thousandths as int,
            silent_aim_radius: self.silent_aim_radius as int,
            reaction_time: self.reaction_time as int,
        }
    }
}

impl View for GameConfig {
    type V = ConfigView;

    open spec fn view(&self) -> ConfigView {
        ConfigView { yolo: self.yolo@, overlay: self.overlay@, emulation: self.emulation@ }
    }
}

/// The hard-coded default record.
pub open spec fn default_view() -> ConfigView {
    ConfigView {
        yolo: YoloView { base_model: "coco.pt"@, epochs: 50, img_size: 640 },
        overlay: OverlayView {
            enemy_color: "red"@,
            silent_aim_ring_color: "blue"@,
            crosshair_color: "white"@,
        },
        emulation: EmulationView {
            humanization_multiplier: 1000,
            silent_aim_radius: 5,
            reaction_time: 50,
        },
    }
}

impl GameConfig {
    /// The default configuration: model `coco.pt`, 50 epochs, image size
    /// 640, colors red/blue/white, multiplier 1.0, radius 5, reaction 50 ms.
    pub fn default() -> (r: GameConfig)
        ensures
            r@ == default_view(),
    {
        GameConfig {
            yolo: YoloConfig {
                base_model: String::from_str("coco.pt"),
                epochs: 50,
                img_size: 640,
            },
            overlay: OverlayConfig {
                enemy_color: String::from_str("red"),
                silent_aim_ring_color: String::from_str("blue"),
                crosshair_color: String::from_str("white"),
            },
            emulation: EmulationConfig {
                humanization_multiplier: Multiplier { thousandths: 1000 },
                silent_aim_radius: 5,
                reaction_time: 50,
            },
        }
    }
}

impl PartialEq for YoloConfig {
    fn eq(&self, other: &YoloConfig) -> (r: bool) {
        self.base_model == other.base_model && self.epochs == other.epochs
            && self.img_size == other.img_size
    }
}

impl vstd::std_specs::cmp::PartialEqSpecImpl for YoloConfig {
    open spec fn obeys_eq_spec() -> bool {
        true
    }

    open spec fn eq_spec(&self, other: &YoloConfig) -> bool {
        self@ == other@
    }
}

impl PartialEq for OverlayConfig {
    fn eq(&self, other: &OverlayConfig) -> (r: bool) {
        self.enemy_color == other.enemy_color
            && self.silent_aim_ring_color == other.silent_aim_ring_color
            && self.crosshair_color == other.crosshair_color
    }
}

impl vstd::std_specs::cmp::PartialEqSpecImpl for OverlayConfig {
    open spec fn obeys_eq_spec() -> bool {
        true
    }

    open spec fn eq_spec(&self, other: &OverlayConfig) -> bool {
        self@ == other@
    }
}

impl PartialEq for EmulationConfig {
    fn eq(&self, other: &EmulationConfig) -> (r: bool) {
        self.humanization_multiplier == other.humanization_multiplier
            && self.silent_aim_radius == other.silent_aim_radius
            && self.reaction_time == other.reaction_time
    }
}

impl vstd::std_specs::cmp::PartialEqSpecImpl for EmulationConfig {
    open spec fn obeys_eq_spec() -> bool {
        true
    }

    open spec fn eq_spec(&self, other: &EmulationConfig) -> bool {
        self@ == other@
    }
}

impl PartialEq for GameConfig {
    fn eq(&self, other: &GameConfig) -> (r: bool) {
        self.yolo == other.yolo && self.overlay == other.overlay
            && self.emulation == other.emulation
    }
}

impl vstd::std_specs::cmp::PartialEqSpecImpl for GameConfig {
    open spec fn obeys_eq_spec() -> bool {
        true
    }

    open spec fn eq_spec(&self, other: &GameConfig) -> bool {
        self@ == other@
    }
}

} // verus!
