//! OSC messages as the library sees them, and the parsing of control messages received on the
//! OSC input port.
//!
//! A float argument is carried as the bit pattern of its `f32` value (`f32::to_bits`), so that
//! the parsers can forward it untouched.

use crate::text::{has_prefix, skip_chars, starts_with, str_eq};
use vstd::prelude::*;
use vstd::string::*;

verus! {

/// A single OSC argument.
///
/// Only integer and float arguments take part in parsing; every other OSC type is `Other`.
#[derive(Copy, Clone, Debug, PartialEq, Eq)]
pub enum OscArg {
    Int(i32),
    /// The bit pattern of an `f32` argument.
    Float(u32),
    Other,
}

/// An OSC message: an address and its optional arguments.
#[derive(Clone, Debug, PartialEq)]
pub struct OscMessage {
    pub addr: String,
    pub args: Option<Vec<OscArg>>,
}

/// The arguments of a message as a sequence, if there are any.
pub open spec fn args_view(args: Option<Vec<OscArg>>) -> Option<Seq<OscArg>> {
    match args {
        Some(v) => Some(v@),
        None => None,
    }
}

/// The first argument, if it is a float.
pub open spec fn first_float(args: Option<Seq<OscArg>>) -> Option<u32> {
    match args {
        Some(a) => if a.len() > 0 {
            match a[0] {
                OscArg::Float(f) => Some(f),
                _ => None,
            }
        } else {
            None
        },
        None => None,
    }
}

/// The bit pattern is that of a NaN: all exponent bits set and a non-zero fraction.
pub open spec fn is_nan_bits(b: u32) -> bool {
    (b & 0x7f80_0000u32) == 0x7f80_0000u32 && (b & 0x007f_ffffu32) != 0
}

/// The bit pattern is that of a zero, positive or negative.
pub open spec fn is_zero_bits(b: u32) -> bool {
    (b & 0x7fff_ffffu32) == 0
}

/// The bits of `1.0f32`.
pub const ONE_BITS: u32 = 0x3f80_0000;

/// The `f32` with bits `b` clamped to `0.0..=1.0`, as `v.min(1.0).max(0.0)` does: a NaN gives
/// `1.0`, a value with the sign bit set (negative, or `-0.0`) gives `0.0`, a value above `1.0`
/// gives `1.0`, and any other value is kept.
pub open spec fn clamp_unit_bits(b: u32) -> u32 {
    if is_nan_bits(b) {
        ONE_BITS
    } else if b >= 0x8000_0000u32 {
        0
    } else if b > ONE_BITS {
        ONE_BITS
    } else {
        b
    }
}

/// The clamped value is never a NaN and lies in `0.0..=1.0`: its bits are those of a
/// non-negative float no greater than `1.0`. A value already in range keeps its bits, a
/// negative one becomes `0.0` and a larger one `1.0`.
pub proof fn lemma_clamp_unit_in_range(b: u32)
    ensures
        clamp_unit_bits(b) <= ONE_BITS,
        !is_nan_bits(clamp_unit_bits(b)),
        b <= ONE_BITS ==> clamp_unit_bits(b) == b,
        b >= 0x8000_0000u32 && !is_nan_bits(b) ==> clamp_unit_bits(b) == 0,
        ONE_BITS < b < 0x7f80_0001u32 ==> clamp_unit_bits(b) == ONE_BITS,
        clamp_unit_bits(clamp_unit_bits(b)) == clamp_unit_bits(b),
{
    let r = clamp_unit_bits(b);
    assert(r <= 0x3f80_0000u32 ==> !((r & 0x7f80_0000u32) == 0x7f80_0000u32 && (r & 0x007f_ffffu32) != 0)) by (bit_vector);
    assert(b <= 0x3f80_0000u32 ==> !((b & 0x7f80_0000u32) == 0x7f80_0000u32 && (b & 0x007f_ffffu32) != 0)) by (bit_vector);
    assert(0x3f80_0000u32 < b < 0x7f80_0001u32 ==> !((b & 0x7f80_0000u32) == 0x7f80_0000u32 && (b & 0x007f_ffffu32) != 0)) by (bit_vector);
}

/// Clamp the `f32` with bits `b` to `0.0..=1.0`.
pub fn clamp_unit(b: u32) -> (r: u32)
    ensures
        r == clamp_unit_bits(b),
{
    if (b & 0x7f80_0000u32) == 0x7f80_0000u32 && (b & 0x007f_ffffu32) != 0 {
        ONE_BITS
    } else if b >= 0x8000_0000u32 {
        0
    } else if b > ONE_BITS {
        ONE_BITS
    } else {
        b
    }
}

/// An OSC input message that was parsed as the master volume for the exhibition.
///
/// Holds the bits of the received `f32`, clamped to `0.0..=1.0`.
#[derive(Copy, Clone, Debug, PartialEq, Eq)]
pub struct MasterVolume(pub u32);

/// An OSC input message that was parsed as volume for a source.
///
/// Expects the address "/bp/source_volume/<source_name>" and a `Float` argument.
#[derive(Clone, Debug, PartialEq)]
pub struct SourceVolume {
    /// The name of the source to which this will be applied.
    pub name: String,
    /// The bits of the `f32` volume.
    pub volume: u32,
}

/// A control message parsed from an OSC input message.
#[derive(Clone, Debug, PartialEq)]
pub enum Control {
    SourceVolume(SourceVolume),
    MasterVolume(MasterVolume),
    PauseSoundscape,
    PlaySoundscape,
}

/// A control message with its source name as a character sequence.
pub enum ControlView {
    SourceVolume { name: Seq<char>, volume: u32 },
    MasterVolume(u32),
    PauseSoundscape,
    PlaySoundscape,
}

impl Control {
    pub open spec fn view(&self) -> ControlView {
        match self {
            Control::SourceVolume(sv) => ControlView::SourceVolume { name: sv.name@, volume: sv.volume },
            Control::MasterVolume(mv) => ControlView::MasterVolume(mv.0),
            Control::PauseSoundscape => ControlView::PauseSoundscape,
            Control::PlaySoundscape => ControlView::PlaySoundscape,
        }
    }
}

pub open spec fn bp_addr() -> Seq<char> { "/bp"@ }
pub open spec fn source_volume_addr() -> Seq<char> { "/source_volume"@ }
pub open spec fn master_volume_addr() -> Seq<char> { "/master_volume"@ }
pub open spec fn play_soundscape_addr() -> Seq<char> { "/play_soundscape"@ }
pub open spec fn pause_soundscape_addr() -> Seq<char> { "/pause_soundscape"@ }

/// The remainder of `s` after the prefix `p`, if `s` begins with `p`.
pub open spec fn after_prefix(s: Seq<char>, p: Seq<char>) -> Option<Seq<char>> {
    if has_prefix(s, p) { Some(s.subrange(p.len() as int, s.len() as int)) } else { None }
}

/// The source name of a source volume address (after "/bp"): the text after
/// "/source_volume/".
pub open spec fn source_volume_name(rest: Seq<char>) -> Option<Seq<char>> {
    match after_prefix(rest, source_volume_addr()) {
        Some(tail) => after_prefix(tail, "/"@),
        None => None,
    }
}

/// The control message, if any, that an OSC message with the given address and arguments
/// denotes.
pub open spec fn spec_control(addr: Seq<char>, args: Option<Seq<OscArg>>) -> Option<ControlView> {
    match after_prefix(addr, bp_addr()) {
        None => None,
        Some(rest) => {
            if rest == master_volume_addr() && first_float(args) is Some {
                Some(ControlView::MasterVolume(clamp_unit_bits(first_float(args)->0)))
            } else if source_volume_name(rest) is Some && first_float(args) is Some {
                Some(ControlView::SourceVolume {
                    name: source_volume_name(rest)->0,
                    volume: first_float(args)->0,
                })
            } else if rest == play_soundscape_addr() {
                Some(ControlView::PlaySoundscape)
            } else if rest == pause_soundscape_addr() {
                Some(ControlView::PauseSoundscape)
            } else {
                None
            }
        },
    }
}

/// The controls that messages denote: "/bp/master_volume" with a float first argument sets the
/// master volume to that value clamped to `0.0..=1.0`; "/bp/source_volume/<name>" with a float
/// first argument sets the volume of the source named `<name>` to that value;
/// "/bp/play_soundscape" and "/bp/pause_soundscape" play and pause the soundscape whatever their
/// arguments; an address that does not start with "/bp" denotes no control.
pub proof fn lemma_controls_by_address(addr: Seq<char>, args: Option<Seq<OscArg>>, name: Seq<char>, f: u32)
    ensures
        first_float(args) == Some(f) ==>
            spec_control("/bp/master_volume"@, args) == Some(ControlView::MasterVolume(clamp_unit_bits(f))),
        first_float(args) == Some(f) ==>
            spec_control("/bp/source_volume/"@ + name, args) == Some(ControlView::SourceVolume { name, volume: f }),
        spec_control("/bp/play_soundscape"@, args) == Some(ControlView::PlaySoundscape),
        spec_control("/bp/pause_soundscape"@, args) == Some(ControlView::PauseSoundscape),
        !has_prefix(addr, "/bp"@) ==> spec_control(addr, args) is None,
{
    reveal_strlit("/bp");
    reveal_strlit("/bp/master_volume");
    reveal_strlit("/bp/source_volume/");
    reveal_strlit("/bp/play_soundscape");
    reveal_strlit("/bp/pause_soundscape");
    reveal_strlit("/master_volume");
    reveal_strlit("/source_volume");
    reveal_strlit("/play_soundscape");
    reveal_strlit("/pause_soundscape");
    reveal_strlit("/");
    let mv = "/bp/master_volume"@;
    assert(mv.subrange(0, 3) =~= "/bp"@);
    assert(mv.subrange(3, mv.len() as int) =~= "/master_volume"@);
    assert(after_prefix(mv, bp_addr()) == Some("/master_volume"@));
    let sv = "/bp/source_volume/"@ + name;
    assert(sv.subrange(0, 3) =~= "/bp"@);
    let sv_rest = sv.subrange(3, sv.len() as int);
    assert(sv_rest.subrange(0, 14) =~= "/source_volume"@);
    let tail = sv_rest.subrange(14, sv_rest.len() as int);
    assert(tail.subrange(0, 1) =~= "/"@);
    assert(tail.subrange(1, tail.len() as int) =~= name);
    assert(source_volume_name(sv_rest) == Some(name));
    assert(sv_rest != master_volume_addr()) by {
        assert(sv_rest[1] == 's');
        assert(master_volume_addr()[1] == 'm');
    }
    let ps = "/bp/play_soundscape"@;
    assert(ps.subrange(0, 3) =~= "/bp"@);
    assert(ps.subrange(3, ps.len() as int) =~= "/play_soundscape"@);
    assert(source_volume_name("/play_soundscape"@) is None) by {
        assert("/play_soundscape"@.subrange(0, 14)[1] == 'p');
    }
    let pa = "/bp/pause_soundscape"@;
    assert(pa.subrange(0, 3) =~= "/bp"@);
    assert(pa.subrange(3, pa.len() as int) =~= "/pause_soundscape"@);
    assert(source_volume_name("/pause_soundscape"@) is None) by {
        assert("/pause_soundscape"@.subrange(0, 14)[1] == 'p');
    }
}

/// Finds the "/bp" string and returns the remainder if any.
pub fn parse_bp(s: &str) -> (r: Option<&str>)
    ensures
        match r {
            Some(rest) => after_prefix(s@, bp_addr()) == Some(rest@),
            None => after_prefix(s@, bp_addr()) is None,
        },
{
    let p = "/bp";
    proof { reveal_strlit("/bp"); }
    if starts_with(s, p) {
        Some(skip_chars(s, p.unicode_len()))
    } else {
        None
    }
}

/// Finds the "/source_volume" string and returns the remainder if any.
pub fn parse_source_volume(s: &str) -> (r: Option<&str>)
    ensures
        match r {
            Some(rest) => after_prefix(s@, source_volume_addr()) == Some(rest@),
            None => after_prefix(s@, source_volume_addr()) is None,
        },
{
    let p = "/source_volume";
    proof { reveal_strlit("/source_volume"); }
    if starts_with(s, p) {
        Some(skip_chars(s, p.unicode_len()))
    } else {
        None
    }
}

/// Finds the "/master_volume" string. Returns `true` if found.
pub fn parse_master_volume(s: &str) -> (r: bool)
    ensures
        r == (s@ == master_volume_addr()),
{
    str_eq(s, "/master_volume")
}

/// Finds the "/play_soundscape" string. Returns `true` if found.
pub fn parse_play_soundscape(s: &str) -> (r: bool)
    ensures
        r == (s@ == play_soundscape_addr()),
{
    str_eq(s, "/play_soundscape")
}

/// Finds the "/pause_soundscape" string. Returns `true` if found.
pub fn parse_pause_soundscape(s: &str) -> (r: bool)
    ensures
        r == (s@ == pause_soundscape_addr()),
{
    str_eq(s, "/pause_soundscape")
}

/// The first argument of the message, if it is a float.
fn first_float_arg(args: &Option<Vec<OscArg>>) -> (r: Option<u32>)
    ensures
        r == first_float(args_view(*args)),
{
    match args {
        Some(a) => {
            if a.len() > 0 {
                match a[0] {
                    OscArg::Float(f) => Some(f),
                    _ => None,
                }
            } else {
                None
            }
        },
        None => None,
    }
}

impl Control {
    /// Parse the given OSC message as a `Control`, if it is one.
    pub fn from_osc_msg(msg: &OscMessage) -> (r: Option<Control>)
        ensures
            match r {
                Some(c) => spec_control(msg.addr@, args_view(msg.args)) == Some(c.view()),
                None => spec_control(msg.addr@, args_view(msg.args)) is None,
            },
    {
        proof {
            reveal_strlit("/source_volume");
            reveal_strlit("/");
        }
        let rest = match parse_bp(msg.addr.as_str()) {
            None => return None,
            Some(rest) => rest,
        };
        let first = first_float_arg(&msg.args);
        if parse_master_volume(rest) {
            if let Some(vol) = first {
                return Some(Control::MasterVolume(MasterVolume(clamp_unit(vol))));
            }
        }
        if let Some(vol) = first {
            if let Some(tail) = parse_source_volume(rest) {
                if starts_with(tail, "/") {
                    let name = String::from_str(skip_chars(tail, 1));
                    return Some(Control::SourceVolume(SourceVolume { name, volume: vol }));
                }
            }
        }
        if parse_play_soundscape(rest) {
            return Some(Control::PlaySoundscape);
        }
        if parse_pause_soundscape(rest) {
            return Some(Control::PauseSoundscape);
        }
        None
    }
}

} // verus!
