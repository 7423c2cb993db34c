//! The interactive editor's decisions, free of any terminal.
//!
//! The editor is a finite state machine over a menu: each menu choice opens
//! one section, each section edit returns to the menu, and the fourth
//! choice saves and ends the session. Replies typed at a prompt are
//! interpreted here: an empty reply keeps the current value, a well-typed
//! reply replaces it, anything else asks the caller to prompt again.

use vstd::prelude::*;

use crate::codec::{lemma_round_trip, parse_mul, spec_parse, spec_serialize};
use crate::config::{line_ok, ConfigView, GameConfig, Multiplier, YoloView};
use crate::num::{parse_int, parse_int_str};
use crate::text::is_single_line;

verus! {

/// Where the editing session stands.
#[derive(Clone, Copy, Debug, PartialEq, Eq, Structural)]
pub enum EditorState {
    /// The menu of sections is shown.
    Menu,
    /// The model-training form is open.
    EditYolo,
    /// The overlay color form is open.
    EditOverlay,
    /// The emulation timing form is open.
    EditEmulation,
    /// The record was saved; the session is over.
    Done,
}

/// The transition function of the editor: a menu choice opens its section
/// (choice 3 ends the session), a finished section returns to the menu.
pub open spec fn spec_next_state(s: EditorState, selection: int) -> EditorState {
    match s {
        EditorState::Menu => if selection == 0 {
            EditorState::EditYolo
        } else if selection == 1 {
            EditorState::EditOverlay
        } else if selection == 2 {
            EditorState::EditEmulation
        } else {
            EditorState::Done
        },
        EditorState::EditYolo => EditorState::Menu,
        EditorState::EditOverlay => EditorState::Menu,
        EditorState::EditEmulation => EditorState::Menu,
        EditorState::Done => EditorState::Done,
    }
}

/// Step the editor: from the menu by the chosen entry, from a section form
/// back to the menu once its fields were prompted.
pub fn next_state(s: EditorState, selection: usize) -> (r: EditorState)
    requires
        s is Menu ==> selection < 4,
    ensures
        r == spec_next_state(s, selection as int),
{
    match s {
        EditorState::Menu => {
            if selection == 0 {
                EditorState::EditYolo
            } else if selection == 1 {
                EditorState::EditOverlay
            } else if selection == 2 {
                EditorState::EditEmulation
            } else {
                EditorState::Done
            }
        },
        EditorState::EditYolo => EditorState::Menu,
        EditorState::EditOverlay => EditorState::Menu,
        EditorState::EditEmulation => EditorState::Menu,
        EditorState::Done => EditorState::Done,
    }
}

/// A reply to a text prompt: empty keeps the current value; a single-line
/// reply replaces it; a reply with a newline must be asked again.
pub fn interpret_text_reply(reply: &str, current: &String) -> (r: Option<String>)
    ensures
        reply@.len() == 0 ==> (r matches Some(v) && v@ == current@),
        reply@.len() > 0 && line_ok(reply@) ==> (r matches Some(v) && v@ == reply@),
        reply@.len() > 0 && !line_ok(reply@) ==> r is None,
{
    if reply.unicode_len() == 0 {
        Some(current.clone())
    } else if is_single_line(reply) {
        Some(String::from_str(reply))
    } else {
        None
    }
}

/// A reply to a small-integer prompt: empty keeps the current value; a
/// canonical in-range integer replaces it; anything else is asked again.
pub fn interpret_i8_reply(reply: &str, current: i8) -> (r: Option<i8>)
    ensures
        reply@.len() == 0 ==> r == Some(current),
        reply@.len() > 0 ==> match parse_int(reply@, i8::MIN as int, i8::MAX as int) {
            Some(v) => r matches Some(x) && x as int == v,
            None => r is None,
        },
{
    if reply.unicode_len() == 0 {
        Some(current)
    } else {
        match parse_int_str(reply, i8::MIN as i64, i8::MAX as i64) {
            Some(v) => Some(v as i8),
            None => None,
        }
    }
}

/// As `interpret_i8_reply`, for the image size.
pub fn interpret_i16_reply(reply: &str, current: i16) -> (r: Option<i16>)
    ensures
        reply@.len() == 0 ==> r == Some(current),
        reply@.len() > 0 ==> match parse_int(reply@, i16::MIN as int, i16::MAX as int) {
            Some(v) => r matches Some(x) && x as int == v,
            None => r is None,
        },
{
    if reply.unicode_len() == 0 {
        Some(current)
    } else {
        match parse_int_str(reply, i16::MIN as i64, i16::MAX as i64) {
            Some(v) => Some(v as i16),
            None => None,
        }
    }
}

/// A reply to the multiplier prompt: empty keeps the current value; a
/// canonical fixed-point number replaces it; anything else is asked again.
pub fn interpret_mul_reply(reply: &str, current: Multiplier) -> (r: Option<Multiplier>)
    ensures
        reply@.len() == 0 ==> r == Some(current),
        reply@.len() > 0 ==> match parse_mul(reply@) {
            Some(m) => r matches Some(x) && x.thousandths as int == m,
            None => r is None,
        },
{
    if reply.unicode_len() == 0 {
        Some(current)
    } else {
        match crate::codec::parse_mul_str(reply) {
            Some(m) => Some(Multiplier { thousandths: m }),
            None => None,
        }
    }
}

/// Replace the model-training fields, leaving the other sections alone.
pub fn apply_yolo(c: &mut GameConfig, base_model: String, epochs: i8, img_size: i16)
    ensures
        final(c)@.yolo.base_model == base_model@,
        final(c)@.yolo.epochs == epochs as int,
        final(c)@.yolo.img_size == img_size as int,
        final(c)@.overlay == old(c)@.overlay,
        final(c)@.emulation == old(c)@.emulation,
{
    c.yolo.base_model = base_model;
    c.yolo.epochs = epochs;
    c.yolo.img_size = img_size;
}

/// Replace the overlay colors, leaving the other sections alone.
pub fn apply_overlay(
    c: &mut GameConfig,
    enemy_color: String,
    silent_aim_ring_color: String,
    crosshair_color: String,
)
    ensures
        final(c)@.overlay.enemy_color == enemy_color@,
        final(c)@.overlay.silent_aim_ring_color == silent_aim_ring_color@,
        final(c)@.overlay.crosshair_color == crosshair_color@,
        final(c)@.yolo == old(c)@.yolo,
        final(c)@.emulation == old(c)@.emulation,
{
    c.overlay.enemy_color = enemy_color;
    c.overlay.silent_aim_ring_color = silent_aim_ring_color;
    c.overlay.crosshair_color = crosshair_color;
}

/// Replace the emulation timing fields, leaving the other sections alone.
pub fn apply_emulation(
    c: &mut GameConfig,
    humanization_multiplier: Multiplier,
    silent_aim_radius: i8,
    reaction_time: i8,
)
    ensures
        final(c)@.emulation.humanization_multiplier == humanization_multiplier.thousandths as int,
        final(c)@.emulation.silent_aim_radius == silent_aim_radius as int,
        final(c)@.emulation.reaction_time == reaction_time as int,
        final(c)@.yolo == old(c)@.yolo,
        final(c)@.overlay == old(c)@.overlay,
{
    c.emulation.humanization_multiplier = humanization_multiplier;
    c.emulation.silent_aim_radius = silent_aim_radius;
    c.emulation.reaction_time = reaction_time;
}

/// Editing one field and saving persists exactly that change: the record
/// with a new epoch count round-trips through the file text, and every
/// other field of it equals the pre-edit record's.
pub proof fn lemma_edited_field_persists(v: ConfigView, e: int)
    requires
        v.wf(),
        i8::MIN <= e <= i8::MAX,
    ensures
        ({
            let v2 = ConfigView {
                yolo: YoloView { epochs: e, ..v.yolo },
                overlay: v.overlay,
                emulation: v.emulation,
            };
            &&& spec_parse(spec_serialize(v2)) == Some(v2)
            &&& v2.yolo.base_model == v.yolo.base_model
            &&& v2.yolo.img_size == v.yolo.img_size
            &&& v2.overlay == v.overlay
            &&& v2.emulation == v.emulation
        }),
{
    let v2 = ConfigView {
        yolo: YoloView { epochs: e, ..v.yolo },
        overlay: v.overlay,
        emulation: v.emulation,
    };
    assert(v2.wf());
    lemma_round_trip(v2);
}

} // verus!
