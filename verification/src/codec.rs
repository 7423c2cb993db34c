//! The text format of the configuration file, with a verified round trip.
//!
//! A file holds three sections, `yolo`, `overlay` and `emulation`, one field
//! per line in a fixed order, each line `  name: value`. Serialization is
//! canonical, parsing accepts exactly the canonical form, and parsing a
//! serialized record gives the record back (`lemma_round_trip`).

use vstd::prelude::*;

use crate::config::{
    line_ok, ConfigView, EmulationConfig, EmulationView, GameConfig, Multiplier, OverlayConfig,
    OverlayView, YoloConfig, YoloView,
};
use crate::num::{
    all_digits, char_of_digit, digit_of, digits_val, enc_int, enc_nat, is_canon_nat, is_digit,
    lemma_all_digits_not_contains, lemma_digits_val_bounds, lemma_enc_int_not_contains,
    lemma_enc_nat, lemma_parse_int_enc, parse_int, parse_int_str, parse_nat, parse_nat_str,
    pow10, push_digit, push_i64, push_u64,
};
use crate::text::{
    lemma_not_contains_concat, lemma_split_first_clean, split_at_first, split_first, strip_key,
};

verus! {

/// Parsing failed: the text is not the serialization of any record.
#[derive(Debug)]
pub struct ParseError;

pub open spec fn nl() -> Seq<char> {
    seq!['\n']
}

pub open spec fn key_yolo() -> Seq<char> {
    "yolo:\n  base_model: "@
}

pub open spec fn key_epochs() -> Seq<char> {
    "  epochs: "@
}

pub open spec fn key_img_size() -> Seq<char> {
    "  img_size: "@
}

pub open spec fn key_overlay() -> Seq<char> {
    "overlay:\n  enemy_color: "@
}

pub open spec fn key_ring() -> Seq<char> {
    "  silent_aim_ring_color: "@
}

pub open spec fn key_crosshair() -> Seq<char> {
    "  crosshair_color: "@
}

pub open spec fn key_emulation() -> Seq<char> {
    "emulation:\n  humanization_multiplier: "@
}

pub open spec fn key_radius() -> Seq<char> {
    "  silent_aim_radius: "@
}

pub open spec fn key_reaction() -> Seq<char> {
    "  reaction_time: "@
}

/// The fractional digits of a multiplier, thousandths with trailing zeros
/// trimmed but at least one digit.
pub open spec fn enc_frac(f: int) -> Seq<char> {
    if f % 100 == 0 {
        seq![char_of_digit(f / 100)]
    } else if f % 10 == 0 {
        seq![char_of_digit(f / 100), char_of_digit((f / 10) % 10)]
    } else {
        seq![char_of_digit(f / 100), char_of_digit((f / 10) % 10), char_of_digit(f % 10)]
    }
}

pub open spec fn is_canon_frac(s: Seq<char>) -> bool {
    1 <= s.len() <= 3 && all_digits(s) && (s.len() > 1 ==> s.last() != '0')
}

/// Parse fractional digits back into thousandths.
pub open spec fn parse_frac(s: Seq<char>) -> Option<int> {
    if is_canon_frac(s) {
        Some(digits_val(s) * pow10((3 - s.len()) as nat))
    } else {
        None
    }
}

/// The canonical text of a multiplier in thousandths: `1250` is `1.25`.
pub open spec fn enc_mul(m: int) -> Seq<char> {
    enc_nat((m / 1000) as nat) + seq!['.'] + enc_frac(m % 1000)
}

/// Parse a multiplier text back into thousandths.
pub open spec fn parse_mul(s: Seq<char>) -> Option<int> {
    match split_first(s, '.') {
        Some(p) => match (parse_nat(p.0), parse_frac(p.1)) {
            (Some(n), Some(f)) => if n * 1000 + f <= u32::MAX {
                Some(n * 1000 + f)
            } else {
                None
            },
            _ => None,
        },
        None => None,
    }
}

/// Strip `key`, then take the rest of the line as the field's text.
pub open spec fn take_field(s: Seq<char>, key: Seq<char>) -> Option<(Seq<char>, Seq<char>)> {
    if key.is_prefix_of(s) {
        split_first(s.skip(key.len() as int), '\n')
    } else {
        None
    }
}

pub open spec fn ser_yolo(y: YoloView) -> Seq<char> {
    key_yolo() + y.base_model + nl() + key_epochs() + enc_int(y.epochs) + nl() + key_img_size()
        + enc_int(y.img_size) + nl()
}

pub open spec fn ser_overlay(o: OverlayView) -> Seq<char> {
    key_overlay() + o.enemy_color + nl() + key_ring() + o.silent_aim_ring_color + nl()
        + key_crosshair() + o.crosshair_color + nl()
}

pub open spec fn ser_emulation(e: EmulationView) -> Seq<char> {
    key_emulation() + enc_mul(e.humanization_multiplier) + nl() + key_radius()
        + enc_int(e.silent_aim_radius) + nl() + key_reaction() + enc_int(e.reaction_time) + nl()
}

/// The canonical text of a whole record.
pub open spec fn spec_serialize(c: ConfigView) -> Seq<char> {
    ser_yolo(c.yolo) + ser_overlay(c.overlay) + ser_emulation(c.emulation)
}

pub open spec fn parse_yolo(s: Seq<char>) -> Option<(YoloView, Seq<char>)> {
    match take_field(s, key_yolo()) {
        Some((bm, s1)) => match take_field(s1, key_epochs()) {
            Some((et, s2)) => match parse_int(et, i8::MIN as int, i8::MAX as int) {
                Some(e) => match take_field(s2, key_img_size()) {
                    Some((it, s3)) => match parse_int(it, i16::MIN as int, i16::MAX as int) {
                        Some(im) => Some(
                            (YoloView { base_model: bm, epochs: e, img_size: im }, s3),
                        ),
                        None => None,
                    },
                    None => None,
                },
                None => None,
            },
            None => None,
        },
        None => None,
    }
}

pub open spec fn parse_overlay(s: Seq<char>) -> Option<(OverlayView, Seq<char>)> {
    match take_field(s, key_overlay()) {
        Some((ec, s1)) => match take_field(s1, key_ring()) {
            Some((rc, s2)) => match take_field(s2, key_crosshair()) {
                Some((cc, s3)) => Some(
                    (
                        OverlayView {
                            enemy_color: ec,
                            silent_aim_ring_color: rc,
                            crosshair_color: cc,
                        },
                        s3,
                    ),
                ),
                None => None,
            },
            None => None,
        },
        None => None,
    }
}

pub open spec fn parse_emulation(s: Seq<char>) -> Option<(EmulationView, Seq<char>)> {
    match take_field(s, key_emulation()) {
        Some((mt, s1)) => match parse_mul(mt) {
            Some(m) => match take_field(s1, key_radius()) {
                Some((rt, s2)) => match parse_int(rt, i8::MIN as int, i8::MAX as int) {
                    Some(ra) => match take_field(s2, key_reaction()) {
                        Some((tt, s3)) => match parse_int(tt, i8::MIN as int, i8::MAX as int) {
                            Some(re) => Some(
                                (
                                    EmulationView {
                                        humanization_multiplier: m,
                                        silent_aim_radius: ra,
                                        reaction_time: re,
                                    },
                                    s3,
                                ),
                            ),
                            None => None,
                        },
                        None => None,
                    },
                    None => None,
                },
                None => None,
            },
            None => None,
        },
        None => None,
    }
}

/// Parse a whole file: the three sections in order and nothing after them.
pub open spec fn spec_parse(s: Seq<char>) -> Option<ConfigView> {
    match parse_yolo(s) {
        Some((y, s1)) => match parse_overlay(s1) {
            Some((o, s2)) => match parse_emulation(s2) {
                Some((e, s3)) => if s3.len() == 0 {
                    Some(ConfigView { yolo: y, overlay: o, emulation: e })
                } else {
                    None
                },
                None => None,
            },
            None => None,
        },
        None => None,
    }
}

/// Taking a field back out of `key + value + newline + rest`.
pub proof fn lemma_take_field_clean(key: Seq<char>, v: Seq<char>, rest: Seq<char>)
    requires
        !v.contains('\n'),
    ensures
        take_field(key + v + seq!['\n'] + rest, key) == Some((v, rest)),
{
    let s = key + v + seq!['\n'] + rest;
    assert(s.subrange(0, key.len() as int) =~= key);
    assert(key.is_prefix_of(s));
    assert(s.skip(key.len() as int) =~= v + seq!['\n'] + rest);
    lemma_split_first_clean(v, '\n', rest);
}

/// The text of an in-range multiplier contains no newline.
pub proof fn lemma_enc_frac(f: int)
    requires
        0 <= f < 1000,
    ensures
        all_digits(enc_frac(f)),
        parse_frac(enc_frac(f)) == Some(f),
{
    reveal_with_fuel(pow10, 4);
    assert(f == 100 * (f / 100) + 10 * ((f / 10) % 10) + f % 10) by {
        vstd::arithmetic::div_mod::lemma_div_denominator(f, 10, 10);
        assert(f == 10 * (f / 10) + f % 10);
        assert(f / 10 == 10 * ((f / 10) / 10) + (f / 10) % 10);
    }
    let a = f / 100;
    let b = (f / 10) % 10;
    let c = f % 10;
    assert(0 <= a <= 9 && 0 <= b <= 9 && 0 <= c <= 9);
    if f % 100 == 0 {
        let s = seq![char_of_digit(a)];
        assert(enc_frac(f) == s);
        assert(s.drop_last() =~= Seq::<char>::empty());
        assert(digits_val(Seq::<char>::empty()) == 0);
        assert(digits_val(s) == a);
        assert(all_digits(s));
        assert(f % 100 == 10 * b + c);
        assert(digits_val(s) * pow10(2) == a * 100);
    } else if f % 10 == 0 {
        let s = seq![char_of_digit(a), char_of_digit(b)];
        assert(enc_frac(f) == s);
        assert(s.drop_last() =~= seq![char_of_digit(a)]);
        assert(seq![char_of_digit(a)].drop_last() =~= Seq::<char>::empty());
        assert(digits_val(Seq::<char>::empty()) == 0);
        assert(digits_val(seq![char_of_digit(a)]) == a);
        assert(digits_val(s) == a * 10 + b);
        assert(all_digits(s));
        assert(f % 100 == 10 * b + c);
        assert(b != 0);
        assert(s.last() == char_of_digit(b));
        assert(s.last() != '0');
        assert(digits_val(s) * pow10(1) == (a * 10 + b) * 10);
        assert((a * 10 + b) * 10 == a * 100 + b * 10);
    } else {
        let s = seq![char_of_digit(a), char_of_digit(b), char_of_digit(c)];
        assert(enc_frac(f) == s);
        assert(s.drop_last() =~= seq![char_of_digit(a), char_of_digit(b)]);
        assert(seq![char_of_digit(a), char_of_digit(b)].drop_last() =~= seq![char_of_digit(a)]);
        assert(seq![char_of_digit(a)].drop_last() =~= Seq::<char>::empty());
        assert(digits_val(Seq::<char>::empty()) == 0);
        assert(digits_val(seq![char_of_digit(a)]) == a);
        assert(digits_val(seq![char_of_digit(a), char_of_digit(b)]) == a * 10 + b);
        assert(digits_val(s) == (a * 10 + b) * 10 + c);
        assert(all_digits(s));
        assert(s.last() == char_of_digit(c));
        assert(s.last() != '0');
        assert(digits_val(s) * pow10(0) == a * 100 + b * 10 + c);
    }
}

/// Parsing the canonical text of an in-range multiplier gives it back.
pub proof fn lemma_parse_mul_enc(m: int)
    requires
        0 <= m <= u32::MAX,
    ensures
        parse_mul(enc_mul(m)) == Some(m),
        !enc_mul(m).contains('\n'),
{
    let whole = (m / 1000) as nat;
    let f = m % 1000;
    lemma_enc_nat(whole);
    lemma_enc_frac(f);
    lemma_all_digits_not_contains(enc_nat(whole), '.');
    lemma_split_first_clean(enc_nat(whole), '.', enc_frac(f));
    assert(parse_nat(enc_nat(whole)) == Some(whole as int));
    assert(m / 1000 * 1000 + m % 1000 == m);
    lemma_all_digits_not_contains(enc_nat(whole), '\n');
    lemma_all_digits_not_contains(enc_frac(f), '\n');
    assert(!seq!['.'].contains('\n')) by {
        if seq!['.'].contains('\n') {
            let i = choose|i: int| 0 <= i < seq!['.'].len() && seq!['.'][i] == '\n';
        }
    }
    lemma_not_contains_concat(seq!['.'], enc_frac(f), '\n');
    lemma_not_contains_concat(enc_nat(whole), seq!['.'] + enc_frac(f), '\n');
    assert(enc_mul(m) =~= enc_nat(whole) + (seq!['.'] + enc_frac(f)));
}

/// Parsing the serialized `yolo` section gives its fields back.
pub proof fn lemma_round_yolo(y: YoloView, rest: Seq<char>)
    requires
        y.wf(),
    ensures
        parse_yolo(ser_yolo(y) + rest) == Some((y, rest)),
{
    let s = ser_yolo(y) + rest;
    let t2 = key_img_size() + enc_int(y.img_size) + seq!['\n'] + rest;
    let t1 = key_epochs() + enc_int(y.epochs) + seq!['\n'] + t2;
    assert(s =~= key_yolo() + y.base_model + seq!['\n'] + t1);
    lemma_take_field_clean(key_yolo(), y.base_model, t1);
    lemma_enc_int_not_contains(y.epochs, '\n');
    lemma_take_field_clean(key_epochs(), enc_int(y.epochs), t2);
    lemma_parse_int_enc(y.epochs, i8::MIN as int, i8::MAX as int);
    lemma_enc_int_not_contains(y.img_size, '\n');
    lemma_take_field_clean(key_img_size(), enc_int(y.img_size), rest);
    lemma_parse_int_enc(y.img_size, i16::MIN as int, i16::MAX as int);
}

/// Parsing the serialized `overlay` section gives its fields back.
pub proof fn lemma_round_overlay(o: OverlayView, rest: Seq<char>)
    requires
        o.wf(),
    ensures
        parse_overlay(ser_overlay(o) + rest) == Some((o, rest)),
{
    let s = ser_overlay(o) + rest;
    let t2 = key_crosshair() + o.crosshair_color + seq!['\n'] + rest;
    let t1 = key_ring() + o.silent_aim_ring_color + seq!['\n'] + t2;
    assert(s =~= key_overlay() + o.enemy_color + seq!['\n'] + t1);
    lemma_take_field_clean(key_overlay(), o.enemy_color, t1);
    lemma_take_field_clean(key_ring(), o.silent_aim_ring_color, t2);
    lemma_take_field_clean(key_crosshair(), o.crosshair_color, rest);
}

/// Parsing the serialized `emulation` section gives its fields back.
pub proof fn lemma_round_emulation(e: EmulationView, rest: Seq<char>)
    requires
        e.wf(),
    ensures
        parse_emulation(ser_emulation(e) + rest) == Some((e, rest)),
{
    let s = ser_emulation(e) + rest;
    let t2 = key_reaction() + enc_int(e.reaction_time) + seq!['\n'] + rest;
    let t1 = key_radius() + enc_int(e.silent_aim_radius) + seq!['\n'] + t2;
    assert(s =~= key_emulation() + enc_mul(e.humanization_multiplier) + seq!['\n'] + t1);
    lemma_parse_mul_enc(e.humanization_multiplier);
    lemma_take_field_clean(key_emulation(), enc_mul(e.humanization_multiplier), t1);
    lemma_enc_int_not_contains(e.silent_aim_radius, '\n');
    lemma_take_field_clean(key_radius(), enc_int(e.silent_aim_radius), t2);
    lemma_parse_int_enc(e.silent_aim_radius, i8::MIN as int, i8::MAX as int);
    lemma_enc_int_not_contains(e.reaction_time, '\n');
    lemma_take_field_clean(key_reaction(), enc_int(e.reaction_time), rest);
    lemma_parse_int_enc(e.reaction_time, i8::MIN as int, i8::MAX as int);
}

/// Strip `key`, then split off the rest of the line.
fn take_field_str<'a>(s: &'a str, key: &str) -> (r: Option<(&'a str, &'a str)>)
    ensures
        match take_field(s@, key@) {
            Some(p) => r matches Some(q) && q.0@ == p.0 && q.1@ == p.1,
            None => r is None,
        },
{
    match strip_key(s, key) {
        None => None,
        Some(rest) => split_at_first(rest, '\n'),
    }
}

/// Append a newline to `out`.
fn push_nl(out: &mut String)
    ensures
        final(out)@ == old(out)@ + nl(),
{
    proof {
        reveal_strlit("\n");
    }
    out.append("\n");
    assert("\n"@ =~= seq!['\n']);
}

/// Append the trimmed fractional digits of `f` thousandths.
fn push_frac(out: &mut String, f: u32)
    requires
        f < 1000,
    ensures
        final(out)@ == old(out)@ + enc_frac(f as int),
{
    if f % 100 == 0 {
        push_digit(out, (f / 100) as u8);
    } else if f % 10 == 0 {
        push_digit(out, (f / 100) as u8);
        push_digit(out, ((f / 10) % 10) as u8);
        assert(out@ =~= old(out)@ + enc_frac(f as int));
    } else {
        push_digit(out, (f / 100) as u8);
        push_digit(out, ((f / 10) % 10) as u8);
        push_digit(out, (f % 10) as u8);
        assert(out@ =~= old(out)@ + enc_frac(f as int));
    }
}

/// Append the canonical text of a multiplier in thousandths.
fn push_mul(out: &mut String, m: u32)
    ensures
        final(out)@ == old(out)@ + enc_mul(m as int),
{
    push_u64(out, (m / 1000) as u64);
    proof {
        reveal_strlit(".");
    }
    out.append(".");
    assert("."@ =~= seq!['.']);
    push_frac(out, m % 1000);
    assert(out@ =~= old(out)@ + enc_mul(m as int));
}

/// The canonical text of a multiplier, for showing it at a prompt.
pub fn mul_text(m: Multiplier) -> (r: String)
    ensures
        r@ == enc_mul(m.thousandths as int),
{
    let mut out = String::new();
    push_mul(&mut out, m.thousandths);
    assert(out@ =~= enc_mul(m.thousandths as int));
    out
}

/// Parse fractional digits back into thousandths.
fn parse_frac_str(t: &str) -> (r: Option<u32>)
    ensures
        r matches Some(f) ==> parse_frac(t@) == Some(f as int) && f < 1000,
        r is None ==> parse_frac(t@) is None,
{
    proof {
        reveal_with_fuel(pow10, 4);
    }
    let len = t.unicode_len();
    if len < 1 || len > 3 {
        return None;
    }
    let mut i: usize = 0;
    let mut acc: u32 = 0;
    while i < len
        invariant
            i <= len,
            len == t@.len(),
            1 <= len <= 3,
            all_digits(t@.subrange(0, i as int)),
            acc == digits_val(t@.subrange(0, i as int)),
            acc < 1000,
            pow10(3) == 1000,
        decreases len - i,
    {
        let c = t.get_char(i);
        match digit_of(c) {
            None => {
                proof {
                    assert(!is_digit(t@[i as int]));
                    assert(!all_digits(t@));
                }
                return None;
            },
            Some(d) => {
                proof {
                    reveal_with_fuel(pow10, 4);
                    assert(t@.subrange(0, i + 1).drop_last() =~= t@.subrange(0, i as int));
                    assert(t@.subrange(0, i + 1).last() == t@[i as int]);
                    assert(all_digits(t@.subrange(0, i + 1))) by {
                        assert(forall|j: int|
                            0 <= j < i + 1 ==> t@.subrange(0, i + 1)[j] == t@[j]);
                        assert(forall|j: int|
                            0 <= j < i ==> t@.subrange(0, i as int)[j] == t@[j]);
                    }
                    lemma_digits_val_bounds(t@.subrange(0, i + 1));
                }
                assert(digits_val(t@.subrange(0, i + 1)) < 1000) by {
                    assert(pow10((i + 1) as nat) <= pow10(3)) by {
                        crate::num::lemma_pow10_mono((i + 1) as nat, 3);
                    }
                }
                acc = acc * 10 + (d as u32);
                i = i + 1;
            },
        }
    }
    proof {
        assert(t@.subrange(0, len as int) =~= t@);
    }
    if len > 1 && t.get_char(len - 1) == '0' {
        proof {
            assert(t@.last() == t@[len - 1]);
        }
        return None;
    }
    proof {
        assert(t@.last() == t@[len - 1]);
        assert(is_canon_frac(t@));
        lemma_digits_val_bounds(t@);
        reveal_with_fuel(pow10, 4);
    }
    if len == 1 {
        assert(acc < 10);
        assert(pow10((3 - t@.len()) as nat) == 100);
        Some(acc * 100)
    } else if len == 2 {
        assert(acc < 100);
        assert(pow10((3 - t@.len()) as nat) == 10);
        Some(acc * 10)
    } else {
        assert(pow10((3 - t@.len()) as nat) == 1);
        Some(acc)
    }
}

/// Parse a multiplier text back into thousandths.
pub fn parse_mul_str(t: &str) -> (r: Option<u32>)
    ensures
        r matches Some(m) ==> parse_mul(t@) == Some(m as int),
        r is None ==> parse_mul(t@) is None,
{
    match split_at_first(t, '.') {
        None => None,
        Some((whole, frac)) => {
            match parse_nat_str(whole) {
                None => {
                    proof {
                        if parse_nat(whole@) is Some {
                            assert(parse_nat(whole@).unwrap() >= 10000000000);
                            if parse_frac(frac@) is Some {
                                assert(is_canon_frac(frac@));
                                lemma_digits_val_bounds(frac@);
                                crate::num::lemma_pow10_pos((3 - frac@.len()) as nat);
                                vstd::arithmetic::mul::lemma_mul_nonnegative(
                                    digits_val(frac@),
                                    pow10((3 - frac@.len()) as nat),
                                );
                            }
                        }
                    }
                    None
                },
                Some(n) => {
                    match parse_frac_str(frac) {
                        None => None,
                        Some(f) => {
                            let total: u64 = n * 1000 + (f as u64);
                            if total <= 0xffff_ffff {
                                Some(total as u32)
                            } else {
                                None
                            }
                        },
                    }
                },
            }
        },
    }
}

fn append_yolo(out: &mut String, y: &YoloConfig)
    ensures
        final(out)@ == old(out)@ + ser_yolo(y@),
{
    out.append("yolo:\n  base_model: ");
    out.append(y.base_model.as_str());
    push_nl(out);
    out.append("  epochs: ");
    push_i64(out, y.epochs as i64);
    push_nl(out);
    out.append("  img_size: ");
    push_i64(out, y.img_size as i64);
    push_nl(out);
    assert(out@ =~= old(out)@ + ser_yolo(y@));
}

fn append_overlay(out: &mut String, o: &OverlayConfig)
    ensures
        final(out)@ == old(out)@ + ser_overlay(o@),
{
    out.append("overlay:\n  enemy_color: ");
    out.append(o.enemy_color.as_str());
    push_nl(out);
    out.append("  silent_aim_ring_color: ");
    out.append(o.silent_aim_ring_color.as_str());
    push_nl(out);
    out.append("  crosshair_color: ");
    out.append(o.crosshair_color.as_str());
    push_nl(out);
    assert(out@ =~= old(out)@ + ser_overlay(o@));
}

fn append_emulation(out: &mut String, e: &EmulationConfig)
    ensures
        final(out)@ == old(out)@ + ser_emulation(e@),
{
    out.append("emulation:\n  humanization_multiplier: ");
    push_mul(out, e.humanization_multiplier.thousandths);
    push_nl(out);
    out.append("  silent_aim_radius: ");
    push_i64(out, e.silent_aim_radius as i64);
    push_nl(out);
    out.append("  reaction_time: ");
    push_i64(out, e.reaction_time as i64);
    push_nl(out);
    assert(out@ =~= old(out)@ + ser_emulation(e@));
}

/// Serialize a record into its canonical file text.
pub fn serialize_config(c: &GameConfig) -> (r: String)
    ensures
        r@ == spec_serialize(c@),
{
    let mut out = String::new();
    append_yolo(&mut out, &c.yolo);
    append_overlay(&mut out, &c.overlay);
    append_emulation(&mut out, &c.emulation);
    assert(out@ =~= spec_serialize(c@));
    out
}

fn parse_yolo_str<'a>(s: &'a str) -> (r: Option<(YoloConfig, &'a str)>)
    ensures
        match parse_yolo(s@) {
            Some(p) => r matches Some(q) && q.0@ == p.0 && q.1@ == p.1,
            None => r is None,
        },
{
    match take_field_str(s, "yolo:\n  base_model: ") {
        None => None,
        Some((bm, s1)) => match take_field_str(s1, "  epochs: ") {
            None => None,
            Some((et, s2)) => match parse_int_str(et, i8::MIN as i64, i8::MAX as i64) {
                None => None,
                Some(e) => match take_field_str(s2, "  img_size: ") {
                    None => None,
                    Some((it, s3)) => match parse_int_str(it, i16::MIN as i64, i16::MAX as i64) {
                        None => None,
                        Some(im) => Some(
                            (
                                YoloConfig {
                                    base_model: String::from_str(bm),
                                    epochs: e as i8,
                                    img_size: im as i16,
                                },
                                s3,
                            ),
                        ),
                    },
                },
            },
        },
    }
}

fn parse_overlay_str<'a>(s: &'a str) -> (r: Option<(OverlayConfig, &'a str)>)
    ensures
        match parse_overlay(s@) {
            Some(p) => r matches Some(q) && q.0@ == p.0 && q.1@ == p.1,
            None => r is None,
        },
{
    match take_field_str(s, "overlay:\n  enemy_color: ") {
        None => None,
        Some((ec, s1)) => match take_field_str(s1, "  silent_aim_ring_color: ") {
            None => None,
            Some((rc, s2)) => match take_field_str(s2, "  crosshair_color: ") {
                None => None,
                Some((cc, s3)) => Some(
                    (
                        OverlayConfig {
                            enemy_color: String::from_str(ec),
                            silent_aim_ring_color: String::from_str(rc),
                            crosshair_color: String::from_str(cc),
                        },
                        s3,
                    ),
                ),
            },
        },
    }
}

fn parse_emulation_str<'a>(s: &'a str) -> (r: Option<(EmulationConfig, &'a str)>)
    ensures
        match parse_emulation(s@) {
            Some(p) => r matches Some(q) && q.0@ == p.0 && q.1@ == p.1,
            None => r is None,
        },
{
    match take_field_str(s, "emulation:\n  humanization_multiplier: ") {
        None => None,
        Some((mt, s1)) => match parse_mul_str(mt) {
            None => None,
            Some(m) => match take_field_str(s1, "  silent_aim_radius: ") {
                None => None,
                Some((rt, s2)) => match parse_int_str(rt, i8::MIN as i64, i8::MAX as i64) {
                    None => None,
                    Some(ra) => match take_field_str(s2, "  reaction_time: ") {
                        None => None,
                        Some((tt, s3)) => match parse_int_str(tt, i8::MIN as i64, i8::MAX as i64) {
                            None => None,
                            Some(re) => Some(
                                (
                                    EmulationConfig {
                                        humanization_multiplier: Multiplier { thousandths: m },
                                        silent_aim_radius: ra as i8,
                                        reaction_time: re as i8,
                                    },
                                    s3,
                                ),
                            ),
                        },
                    },
                },
            },
        },
    }
}

/// Parse a file's text into a record; any text that is not the canonical
/// serialization of some record is rejected.
pub fn parse_config(s: &str) -> (r: Result<GameConfig, ParseError>)
    ensures
        r matches Ok(c) ==> spec_parse(s@) == Some(c@),
        r is Err ==> spec_parse(s@) is None,
{
    match parse_yolo_str(s) {
        None => Err(ParseError),
        Some((y, s1)) => match parse_overlay_str(s1) {
            None => Err(ParseError),
            Some((o, s2)) => match parse_emulation_str(s2) {
                None => Err(ParseError),
                Some((em, s3)) => {
                    if s3.unicode_len() == 0 {
                        Ok(GameConfig { yolo: y, overlay: o, emulation: em })
                    } else {
                        Err(ParseError)
                    }
                },
            },
        },
    }
}

/// Round trip: parsing the serialization of any well-formed record gives
/// exactly that record back.
pub proof fn lemma_round_trip(v: ConfigView)
    requires
        v.wf(),
    ensures
        spec_parse(spec_serialize(v)) == Some(v),
{
    let s = spec_serialize(v);
    let rest1 = ser_overlay(v.overlay) + ser_emulation(v.emulation);
    assert(s =~= ser_yolo(v.yolo) + rest1);
    lemma_round_yolo(v.yolo, rest1);
    let rest2 = ser_emulation(v.emulation) + Seq::<char>::empty();
    assert(rest1 =~= ser_overlay(v.overlay) + rest2);
    lemma_round_overlay(v.overlay, rest2);
    lemma_round_emulation(v.emulation, Seq::<char>::empty());
}

/// The hard-coded default record is well formed.
pub proof fn lemma_default_wf()
    ensures
        crate::config::default_view().wf(),
{
    reveal_strlit("coco.pt");
    reveal_strlit("red");
    reveal_strlit("blue");
    reveal_strlit("white");
    assert(!"coco.pt"@.contains('\n')) by {
        if "coco.pt"@.contains('\n') {
            let i = choose|i: int| 0 <= i < "coco.pt"@.len() && "coco.pt"@[i] == '\n';
        }
    }
    assert(!"red"@.contains('\n')) by {
        if "red"@.contains('\n') {
            let i = choose|i: int| 0 <= i < "red"@.len() && "red"@[i] == '\n';
        }
    }
    assert(!"blue"@.contains('\n')) by {
        if "blue"@.contains('\n') {
            let i = choose|i: int| 0 <= i < "blue"@.len() && "blue"@[i] == '\n';
        }
    }
    assert(!"white"@.contains('\n')) by {
        if "white"@.contains('\n') {
            let i = choose|i: int| 0 <= i < "white"@.len() && "white"@[i] == '\n';
        }
    }
}

/// A workspace with no configuration yet starts from the default record,
/// and the file written for it reads back as exactly that record.
pub proof fn lemma_default_round_trip()
    ensures
        spec_parse(spec_serialize(crate::config::default_view()))
            == Some(crate::config::default_view()),
{
    lemma_default_wf();
    lemma_round_trip(crate::config::default_view());
}

} // verus!
