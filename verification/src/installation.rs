//! Installations of the exhibition and their default configuration.

pub mod computer;

use crate::text::{decimal, digit_char, str_eq};
use crate::utils::Range;
use vstd::prelude::*;
use vstd::string::*;

verus! {

/// What `slug::slugify` returns for the given text.
pub uninterp spec fn slugify_result(s: Seq<char>) -> Seq<char>;

/// A slug consists of 'a'..='z', '0'..='9' and '-', never holds two '-' in a row, and never
/// starts or ends with '-'.
pub open spec fn is_slug(s: Seq<char>) -> bool {
    &&& forall|i: int| 0 <= i < s.len() ==> (('a' <= #[trigger] s[i] && s[i] <= 'z') || ('0' <= s[i] && s[i] <= '9') || s[i] == '-')
    &&& forall|i: int| 0 <= i < s.len() - 1 ==> !(#[trigger] s[i] == '-' && s[i + 1] == '-')
    &&& s.len() > 0 ==> s[0] != '-' && s[s.len() - 1] != '-'
}

/// Convert the text to an ASCII slug for file names and OSC addresses, with `slug::slugify`.
///
/// Trusted: the result is the function's result on the text, and is a slug as its
/// documentation describes (the transliteration of non-ASCII text is not stated).
#[verifier::external_body]
pub(crate) fn slugify(s: &str) -> (r: String)
    ensures
        r@ == slugify_result(s@),
        is_slug(r@),
{
    slug::slugify(s)
}

/// A memory efficient unique identifier for an installation.
#[derive(Copy, Clone, Debug, Default, PartialEq, Eq, Hash)]
pub struct Id(pub usize);

/// The default number of computers for the beyond perception installation with the given name.
pub open spec fn spec_default_num_computers(name: Seq<char>) -> Option<usize> {
    if name == "Energetic Vibrations - Projection Mapping"@ {
        Some(3)
    } else if is_beyond_perception_name(name) {
        Some(0)
    } else {
        None
    }
}

pub open spec fn is_beyond_perception_name(name: Seq<char>) -> bool {
    exists|i: int| 0 <= i < 9 && name == beyond_perception_name(i)
}

pub open spec fn beyond_perception_name(i: int) -> Seq<char> {
    if i == 0 { "Waves At Work"@ }
    else if i == 1 { "Ripples In Spacetime"@ }
    else if i == 2 { "Energetic Vibrations - Audio Visualiser"@ }
    else if i == 3 { "Energetic Vibrations - Projection Mapping"@ }
    else if i == 4 { "Turbulent Encounters"@ }
    else if i == 5 { "Cacophony"@ }
    else if i == 6 { "Wrapped In Spectrum"@ }
    else if i == 7 { "Turret 1"@ }
    else { "Turret 2"@ }
}

/// The number of beyond perception installations known by default.
pub const NUM_BEYOND_PERCEPTION_INSTALLATIONS: usize = 9;

/// The name of the beyond perception installation at the given index, if there is one.
pub fn beyond_perception_names(i: usize) -> (r: Option<&'static str>)
    ensures
        match r {
            Some(name) => i < 9 && name@ == beyond_perception_name(i as int),
            None => i >= 9,
        },
{
    proof {
        reveal_strlit("Waves At Work");
        reveal_strlit("Ripples In Spacetime");
        reveal_strlit("Energetic Vibrations - Audio Visualiser");
        reveal_strlit("Energetic Vibrations - Projection Mapping");
        reveal_strlit("Turbulent Encounters");
        reveal_strlit("Cacophony");
        reveal_strlit("Wrapped In Spectrum");
        reveal_strlit("Turret 1");
        reveal_strlit("Turret 2");
    }
    match i {
        0 => Some("Waves At Work"),
        1 => Some("Ripples In Spacetime"),
        2 => Some("Energetic Vibrations - Audio Visualiser"),
        3 => Some("Energetic Vibrations - Projection Mapping"),
        4 => Some("Turbulent Encounters"),
        5 => Some("Cacophony"),
        6 => Some("Wrapped In Spectrum"),
        7 => Some("Turret 1"),
        8 => Some("Turret 2"),
        _ => None,
    }
}

/// The default number of computers for the beyond perception installation with the given name.
pub fn beyond_perception_default_num_computers(name: &str) -> (r: Option<usize>)
    ensures
        r == spec_default_num_computers(name@),
{
    let mut i: usize = 0;
    while i < NUM_BEYOND_PERCEPTION_INSTALLATIONS
        invariant
            i <= 9,
            forall|j: int| 0 <= j < i ==> name@ != beyond_perception_name(j),
        decreases 9 - i,
    {
        let candidate = beyond_perception_names(i).unwrap();
        if str_eq(name, candidate) {
            proof {
                assert(is_beyond_perception_name(name@));
            }
            if i == 3 {
                return Some(3);
            } else {
                proof {
                    reveal_strlit("Energetic Vibrations - Projection Mapping");
                    reveal_strlit("Waves At Work");
                    reveal_strlit("Ripples In Spacetime");
                    reveal_strlit("Energetic Vibrations - Audio Visualiser");
                    reveal_strlit("Turbulent Encounters");
                    reveal_strlit("Cacophony");
                    reveal_strlit("Wrapped In Spectrum");
                    reveal_strlit("Turret 1");
                    reveal_strlit("Turret 2");
                    assert(beyond_perception_name(i as int).len() != beyond_perception_name(3).len());
                    assert(name@ != beyond_perception_name(3));
                }
                return Some(0);
            }
        }
        i = i + 1;
    }
    proof {
        assert(!is_beyond_perception_name(name@));
        assert(name@ != beyond_perception_name(3));
    }
    None
}

/// Produces the OSC address string: a slugified version of the installation's name after a '/'.
pub fn osc_addr_string(name: &str) -> (r: String)
    ensures
        r@ == "/"@ + slugify_result(name@),
{
    let mut s = String::from_str("/");
    let slug = slugify(name);
    s.append(slug.as_str());
    s
}

/// The name given to installations that have not been named.
pub fn name() -> (r: &'static str)
    ensures
        r@ == unnamed(),
{
    proof { reveal_strlit("<unnamed>"); }
    "<unnamed>"
}

pub open spec fn unnamed() -> Seq<char> {
    "<unnamed>"@
}

/// The name given to installations that have not been named, as an owned string.
pub fn name_string() -> (r: String)
    ensures
        r@ == unnamed(),
{
    String::from_str(name())
}

/// The default bounds for the number of sounds that an installation plays at once.
pub fn simultaneous_sounds() -> (r: Range<usize>)
    ensures
        r == (Range::<usize> { min: 1, max: 8 }),
{
    Range { min: 1, max: 8 }
}

/// Constraints related to the soundscape.
#[derive(Copy, Clone, Debug, PartialEq, Eq)]
pub struct Soundscape {
    pub simultaneous_sounds: Range<usize>,
}

impl Soundscape {
    /// The default soundscape constraints.
    pub fn default() -> (r: Self)
        ensures
            r == (Soundscape { simultaneous_sounds: Range::<usize> { min: 1, max: 8 } }),
    {
        Soundscape { simultaneous_sounds: simultaneous_sounds() }
    }
}

/// The installation that a variant name of the former installation enum denotes.
pub open spec fn legacy_variant_id(s: Seq<char>) -> Option<usize> {
    if s == "WavesAtWork"@ { Some(0) }
    else if s == "RipplesInSpacetime"@ { Some(1) }
    else if s == "EnergeticVibrationsAudioVisualiser"@ { Some(2) }
    else if s == "EnergeticVibrationsProjectionMapping"@ { Some(3) }
    else if s == "TurbulentEncounters"@ { Some(4) }
    else if s == "Cacophony"@ { Some(5) }
    else if s == "WrappedInSpectrum"@ { Some(6) }
    else if s == "Turret1"@ { Some(7) }
    else if s == "Turret2"@ { Some(8) }
    else { None }
}

pub open spec fn is_digit(c: char) -> bool {
    '0' <= c && c <= '9'
}

/// The text without its leading '+', if any.
pub open spec fn unsigned_digits(s: Seq<char>) -> Seq<char> {
    if s.len() > 0 && s[0] == '+' { s.subrange(1, s.len() as int) } else { s }
}

/// Every character is a decimal digit.
pub open spec fn all_digits(d: Seq<char>) -> bool {
    forall|i: int| 0 <= i < d.len() ==> is_digit(#[trigger] d[i])
}

/// The value of a sequence of decimal digits.
pub open spec fn digits_value(d: Seq<char>) -> nat
    decreases d.len(),
{
    if d.len() == 0 {
        0
    } else {
        digits_value(d.drop_last()) * 10 + ((d.last() as nat) - ('0' as nat)) as nat
    }
}

/// The `usize` that the text denotes in decimal, with an optional leading '+', as `str::parse`
/// reads it.
pub open spec fn spec_parse_usize(s: Seq<char>) -> Option<usize> {
    let d = unsigned_digits(s);
    if d.len() > 0 && all_digits(d) && digits_value(d) <= usize::MAX {
        Some(digits_value(d) as usize)
    } else {
        None
    }
}

/// The decimal digits of `n` are digits, at least one, none a '+', and their value is `n`.
proof fn lemma_decimal_digits(n: nat)
    ensures
        decimal(n).len() > 0,
        all_digits(decimal(n)),
        decimal(n)[0] != '+',
        digits_value(decimal(n)) == n,
    decreases n,
{
    let d = decimal(n);
    if n < 10 {
        assert(d.drop_last() =~= Seq::<char>::empty());
        assert(digits_value(Seq::<char>::empty()) == 0);
        assert(d.last() == digit_char(n));
        assert((digit_char(n) as nat) - ('0' as nat) == n);
        assert(digits_value(d) == digits_value(d.drop_last()) * 10 + ((d.last() as nat) - ('0' as nat)) as nat);
    } else {
        lemma_decimal_digits(n / 10);
        let p = decimal(n / 10);
        assert(d == p.push(digit_char(n % 10)));
        assert(d.drop_last() =~= p);
        assert(d[0] == p[0]);
        assert((digit_char(n % 10) as nat) - ('0' as nat) == n % 10);
        assert((n / 10) * 10 + n % 10 == n) by (nonlinear_arith);
        assert(d.last() == digit_char(n % 10));
        assert(digits_value(d) == digits_value(d.drop_last()) * 10 + ((d.last() as nat) - ('0' as nat)) as nat);
        assert forall|i: int| 0 <= i < d.len() implies is_digit(#[trigger] d[i]) by {
            if i < p.len() {
                assert(d[i] == p[i]);
            }
        }
    }
}

/// Reading back the decimal digits of a number gives the number, with or without a leading
/// '+'; so does reading them back as an installation id.
pub proof fn lemma_parse_decimal_round_trip(n: nat)
    requires
        n <= usize::MAX,
    ensures
        spec_parse_usize(decimal(n)) == Some(n as usize),
        spec_parse_usize(seq!['+'] + decimal(n)) == Some(n as usize),
{
    lemma_decimal_digits(n);
    let d = decimal(n);
    assert(unsigned_digits(d) == d);
    let p = seq!['+'] + d;
    assert(p.subrange(1, p.len() as int) =~= d);
    assert(unsigned_digits(p) == d);
}

/// Parse a decimal `usize` with an optional leading '+'.
pub fn parse_usize(s: &str) -> (r: Option<usize>)
    ensures
        r == spec_parse_usize(s@),
{
    let n = s.unicode_len();
    let start: usize = if n > 0 && s.get_char(0) == '+' { 1 } else { 0 };
    let ghost d = if s@.len() > 0 && s@[0] == '+' { s@.subrange(1, s@.len() as int) } else { s@ };
    if start == n {
        return None;
    }
    let mut acc: usize = 0;
    let mut i: usize = start;
    proof {
        assert(d =~= s@.subrange(start as int, n as int));
        assert(d.subrange(0, 0).len() == 0);
    }
    while i < n
        invariant
            n == s@.len(),
            start <= i <= n,
            start < n,
            d == unsigned_digits(s@),
            d == s@.subrange(start as int, n as int),
            forall|j: int| 0 <= j < i - start ==> is_digit(#[trigger] d[j]),
            acc as nat == digits_value(d.subrange(0, i - start)),
        decreases n - i,
    {
        let c = s.get_char(i);
        proof {
            let t = d.subrange(0, i - start + 1);
            assert(t.drop_last() =~= d.subrange(0, i - start));
            assert(t.last() == c);
        }
        if !('0' <= c && c <= '9') {
            proof {
                assert(d[i - start] == c);
                assert(!is_digit(d[i - start]));
                assert(!(forall|j: int| 0 <= j < d.len() ==> is_digit(#[trigger] d[j])));
            }
            return None;
        }
        let digit = (c as u32 - '0' as u32) as usize;
        let next = match acc.checked_mul(10) {
            Some(m) => m.checked_add(digit),
            None => None,
        };
        match next {
            Some(v) => {
                acc = v;
            },
            None => {
                proof {
                    lemma_digits_value_grows(d, (i - start + 1) as int);
                }
                return None;
            },
        }
        i = i + 1;
    }
    proof {
        assert(d.subrange(0, n - start) =~= d);
    }
    Some(acc)
}

/// The value of a prefix of digits never exceeds the value of the whole.
proof fn lemma_digits_value_grows(d: Seq<char>, k: int)
    requires
        0 <= k <= d.len(),
    ensures
        digits_value(d.subrange(0, k)) <= digits_value(d),
    decreases d.len() - k,
{
    if k < d.len() {
        lemma_digits_value_grows(d, k + 1);
        let t = d.subrange(0, k + 1);
        assert(t.drop_last() =~= d.subrange(0, k));
    } else {
        assert(d.subrange(0, k) =~= d);
    }
}

/// The installation `Id` that a stored string denotes: either a variant name of the former
/// installation enum, or the decimal number of the id.
pub open spec fn spec_id_from_string(s: Seq<char>) -> Option<Id> {
    match legacy_variant_id(s) {
        Some(i) => Some(Id(i)),
        None => match spec_parse_usize(s) {
            Some(n) => Some(Id(n)),
            None => None,
        },
    }
}

impl Id {
    /// Read an installation `Id` stored as a string, supporting the former enum variant names.
    ///
    /// Returns `None` if the string is neither a variant name nor a decimal number.
    pub fn from_string(s: &str) -> (r: Option<Id>)
        ensures
            r == spec_id_from_string(s@),
    {
        proof {
            reveal_strlit("WavesAtWork");
            reveal_strlit("RipplesInSpacetime");
            reveal_strlit("EnergeticVibrationsAudioVisualiser");
            reveal_strlit("EnergeticVibrationsProjectionMapping");
            reveal_strlit("TurbulentEncounters");
            reveal_strlit("Cacophony");
            reveal_strlit("WrappedInSpectrum");
            reveal_strlit("Turret1");
            reveal_strlit("Turret2");
        }
        if str_eq(s, "WavesAtWork") { Some(Id(0)) }
        else if str_eq(s, "RipplesInSpacetime") { Some(Id(1)) }
        else if str_eq(s, "EnergeticVibrationsAudioVisualiser") { Some(Id(2)) }
        else if str_eq(s, "EnergeticVibrationsProjectionMapping") { Some(Id(3)) }
        else if str_eq(s, "TurbulentEncounters") { Some(Id(4)) }
        else if str_eq(s, "Cacophony") { Some(Id(5)) }
        else if str_eq(s, "WrappedInSpectrum") { Some(Id(6)) }
        else if str_eq(s, "Turret1") { Some(Id(7)) }
        else if str_eq(s, "Turret2") { Some(Id(8)) }
        else {
            match parse_usize(s) {
                Some(n) => Some(Id(n)),
                None => None,
            }
        }
    }
}

/// A single installation within the exhibition.
#[derive(Clone, Debug, PartialEq)]
pub struct Installation {
    /// The name of the installation.
    pub name: String,
    /// The computers of the installation, each with a distinct id.
    pub computers: Vec<(computer::Id, computer::Address)>,
    /// Constraints related to the soundscape.
    pub soundscape: Soundscape,
}

impl Installation {
    /// An unnamed installation without computers.
    pub fn default() -> (r: Self)
        ensures
            r.name@ == unnamed(),
            r.computers@.len() == 0,
            r.soundscape == (Soundscape { simultaneous_sounds: Range::<usize> { min: 1, max: 8 } }),
    {
        Installation {
            name: name_string(),
            computers: Vec::new(),
            soundscape: Soundscape::default(),
        }
    }
}

} // verus!
