//! Interactions that installations report to the audio server over OSC.
//!
//! Each interaction-related OSC message address is prefixed with "/bp/" (for Beyond Perception)
//! and then the abbreviation of the relevant installation name, e.g. "/bp/cw" for Cosmic Wave
//! and "/bp/te" for Turbulent Encounters.
//!
//! Scalar values are the bit patterns of the `f32` values received.

use crate::osc::{args_view, OscArg, OscMessage};
use crate::text::{has_prefix, skip_chars, starts_with, str_eq};
use vstd::prelude::*;
use vstd::string::*;

verus! {

/// Describes the various interactions that are listened for within the installation.
#[derive(Copy, Clone, Debug, PartialEq, Eq)]
pub enum Interaction {
    CosmicWave(CosmicWave),
    TurbulentEncounters(TurbulentEncounters),
}

/// Interactions with the Cosmic Wave installation.
#[derive(Copy, Clone, Debug, PartialEq, Eq)]
pub enum CosmicWave {
    /// Interactions with the touch surface from the perspective of looking directly at the
    /// projection surface. Each scalar lies in `0.0..=1.0`.
    Touch {
        /// The ID of the material surface that has been touched.
        screen_id: i32,
        /// The ID associated with this continuous touch.
        id: i32,
        /// The horizontal plane.
        x: u32,
        /// The vertical plane.
        y: u32,
        /// The depth plane.
        z: u32,
    },
    /// Occasionally interactions may cause a reaction of some sort.
    TriggerReaction(Reaction),
}

/// The reactions that an interaction may trigger: none are known yet, so no value of this type
/// exists.
pub type Reaction = core::convert::Infallible;

/// Interactions with the Turbulent Encounters installation.
#[derive(Copy, Clone, Debug, PartialEq, Eq)]
pub enum TurbulentEncounters {
    /// One of the rotary encoders.
    RotaryEncoder {
        /// The unique identifier associated with the encoder.
        id: i32,
        /// The "amount" the encoder spun, `0.0` the minimum and `1.0` the maximum.
        value: u32,
    },
}

pub open spec fn interaction_prefix() -> Seq<char> { "/bp/"@ }

/// The address with the interaction prefix removed, if the address carries the prefix and more.
pub open spec fn interaction_rest(addr: Seq<char>) -> Option<Seq<char>> {
    if addr.len() > interaction_prefix().len() && has_prefix(addr, interaction_prefix()) {
        Some(addr.subrange(4, addr.len() as int))
    } else {
        None
    }
}

/// The interaction that a message with the given address and arguments denotes.
pub open spec fn spec_from_osc(addr: Seq<char>, args: Option<Seq<OscArg>>) -> Option<Interaction> {
    match (interaction_rest(addr), args) {
        (Some(rest), Some(a)) => {
            if rest == "cw"@ && a.len() == 5 {
                match (a[0], a[1], a[2], a[3], a[4]) {
                    (
                        OscArg::Int(screen_id),
                        OscArg::Int(id),
                        OscArg::Float(x),
                        OscArg::Float(y),
                        OscArg::Float(z),
                    ) => Some(Interaction::CosmicWave(CosmicWave::Touch { screen_id, id, x, y, z })),
                    _ => None,
                }
            } else if rest == "te"@ && a.len() == 2 {
                match (a[0], a[1]) {
                    (OscArg::Int(id), OscArg::Float(value)) => Some(
                        Interaction::TurbulentEncounters(
                            TurbulentEncounters::RotaryEncoder { id, value },
                        ),
                    ),
                    _ => None,
                }
            } else {
                None
            }
        },
        _ => None,
    }
}

/// The interactions that messages denote: a "/bp/cw" message with two integers and three floats
/// is a Cosmic Wave touch of those values, a "/bp/te" message with an integer and a float is a
/// turn of that Turbulent Encounters rotary encoder, and no other address, nor a message without
/// arguments, denotes an interaction.
pub proof fn lemma_interactions_by_address(
    addr: Seq<char>,
    args: Option<Seq<OscArg>>,
    screen_id: i32,
    id: i32,
    x: u32,
    y: u32,
    z: u32,
    value: u32,
)
    ensures
        spec_from_osc("/bp/cw"@, Some(seq![
            OscArg::Int(screen_id), OscArg::Int(id), OscArg::Float(x), OscArg::Float(y), OscArg::Float(z),
        ])) == Some(Interaction::CosmicWave(CosmicWave::Touch { screen_id, id, x, y, z })),
        spec_from_osc("/bp/te"@, Some(seq![OscArg::Int(id), OscArg::Float(value)]))
            == Some(Interaction::TurbulentEncounters(TurbulentEncounters::RotaryEncoder { id, value })),
        args is None ==> spec_from_osc(addr, args) is None,
        spec_from_osc(addr, args) is Some ==> addr == "/bp/cw"@ || addr == "/bp/te"@,
{
    reveal_strlit("/bp/cw");
    reveal_strlit("/bp/te");
    reveal_strlit("/bp/");
    reveal_strlit("cw");
    reveal_strlit("te");
    assert(interaction_rest("/bp/cw"@) == Some("cw"@)) by {
        assert("/bp/cw"@.subrange(0, 4) =~= "/bp/"@);
        assert("/bp/cw"@.subrange(4, 6) =~= "cw"@);
    }
    assert(interaction_rest("/bp/te"@) == Some("te"@)) by {
        assert("/bp/te"@.subrange(0, 4) =~= "/bp/"@);
        assert("/bp/te"@.subrange(4, 6) =~= "te"@);
    }
    if spec_from_osc(addr, args) is Some {
        let rest = interaction_rest(addr)->0;
        assert(addr.subrange(0, 4) == "/bp/"@);
        assert(rest == addr.subrange(4, addr.len() as int));
        if rest == "cw"@ {
            assert(addr =~= "/bp/cw"@) by {
                assert forall|k: int| 0 <= k < addr.len() implies addr[k] == "/bp/cw"@[k] by {
                    if k < 4 {
                        assert(addr.subrange(0, 4)[k] == addr[k]);
                    } else {
                        assert(rest[k - 4] == addr[k]);
                    }
                }
            }
        } else {
            assert(rest == "te"@);
            assert(addr =~= "/bp/te"@) by {
                assert forall|k: int| 0 <= k < addr.len() implies addr[k] == "/bp/te"@[k] by {
                    if k < 4 {
                        assert(addr.subrange(0, 4)[k] == addr[k]);
                    } else {
                        assert(rest[k - 4] == addr[k]);
                    }
                }
            }
        }
    }
}

/// Parse the given OSC message as an `Interaction`.
///
/// Returns `None` if the message cannot be parsed; a cosmic wave reaction trigger ("/bp/cw" with
/// a single `Int`) is one of them, as no reaction exists to be named.
pub fn from_osc(msg: &OscMessage) -> (r: Option<Interaction>)
    ensures
        r == spec_from_osc(msg.addr@, args_view(msg.args)),
{
    proof {
        reveal_strlit("/bp/");
        reveal_strlit("cw");
        reveal_strlit("te");
    }
    let addr = msg.addr.as_str();
    let prefix = "/bp/";
    if addr.unicode_len() <= prefix.unicode_len() || !starts_with(addr, prefix) {
        return None;
    }
    let args = match &msg.args {
        Some(args) => args,
        None => return None,
    };
    let rest = skip_chars(addr, prefix.unicode_len());
    let n = args.len();
    if str_eq(rest, "cw") && n == 5 {
        match (args[0], args[1], args[2], args[3], args[4]) {
            (
                OscArg::Int(screen_id),
                OscArg::Int(id),
                OscArg::Float(x),
                OscArg::Float(y),
                OscArg::Float(z),
            ) => Some(Interaction::CosmicWave(CosmicWave::Touch { screen_id, id, x, y, z })),
            _ => None,
        }
    } else if str_eq(rest, "te") && n == 2 {
        match (args[0], args[1]) {
            (OscArg::Int(id), OscArg::Float(value)) => Some(
                Interaction::TurbulentEncounters(TurbulentEncounters::RotaryEncoder { id, value }),
            ),
            _ => None,
        }
    } else {
        None
    }
}

impl From<CosmicWave> for Interaction {
    fn from(cw: CosmicWave) -> (r: Self) {
        Interaction::CosmicWave(cw)
    }
}

impl vstd::std_specs::convert::FromSpecImpl<CosmicWave> for Interaction {
    open spec fn obeys_from_spec() -> bool {
        true
    }

    open spec fn from_spec(v: CosmicWave) -> Self {
        Interaction::CosmicWave(v)
    }
}

impl From<TurbulentEncounters> for Interaction {
    fn from(te: TurbulentEncounters) -> (r: Self) {
        Interaction::TurbulentEncounters(te)
    }
}

impl vstd::std_specs::convert::FromSpecImpl<TurbulentEncounters> for Interaction {
    open spec fn obeys_from_spec() -> bool {
        true
    }

    open spec fn from_spec(v: TurbulentEncounters) -> Self {
        Interaction::TurbulentEncounters(v)
    }
}

} // verus!
