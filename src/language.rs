//! The language filter: what the detector reports, and when a token is refused.

use vstd::prelude::*;

verus! {

/// What the language detector reports of a text: its script's name, the
/// language's ISO 639-3 code, and the IEEE-754 bit pattern of the confidence.
pub struct Detection {
    pub script: String,
    pub lang: String,
    pub confidence_bits: u64,
}

impl Detection {
    pub open spec fn model(&self) -> (Seq<char>, Seq<char>, u64) {
        (self.script@, self.lang@, self.confidence_bits)
    }
}

/// What the detector reports of a text, as script name, language code and
/// confidence bits; `None` where it has no opinion.
pub uninterp spec fn detection_of(s: Seq<char>) -> Option<(Seq<char>, Seq<char>, u64)>;

/// Relies on `whatlang::detect`; `Script::name`, `Lang::code` and `f64::to_bits`
/// only hand its outcome over as plain values.
#[verifier::external_body]
pub(crate) fn detect_language(s: &str) -> (r: Option<Detection>)
    ensures
        match r {
            None => detection_of(s@) is None,
            Some(d) => detection_of(s@) == Some(d.model()),
        },
{
    whatlang::detect(s).map(
        |i| Detection {
            script: i.script().name().to_string(),
            lang: i.lang().code().to_string(),
            confidence_bits: i.confidence().to_bits(),
        },
    )
}

/// Bit pattern of the double nearest to 0.6.
pub const CONFIDENCE_LIMIT_BITS: u64 = 0x3FE3_3333_3333_3333;

/// Bit pattern of positive infinity; above it lie the NaNs and negative values.
pub const POSITIVE_INFINITY_BITS: u64 = 0x7FF0_0000_0000_0000;

/// A confidence above the limit. On IEEE-754 doubles with the sign bit clear,
/// the order of the bit patterns is the numeric order; NaN exceeds nothing.
pub open spec fn confident(bits: u64) -> bool {
    CONFIDENCE_LIMIT_BITS < bits && bits <= POSITIVE_INFINITY_BITS
}

pub open spec fn latin_name() -> Seq<char> {
    seq!['L', 'a', 't', 'i', 'n']
}

pub open spec fn english_code() -> Seq<char> {
    seq!['e', 'n', 'g']
}

/// A report that refuses the text: another script than Latin, or a confident
/// guess of another language than English. No report refuses nothing.
pub open spec fn refuses(d: Option<(Seq<char>, Seq<char>, u64)>) -> bool {
    match d {
        None => false,
        Some(x) => x.0 != latin_name() || (x.1 != english_code() && confident(x.2)),
    }
}

/// Whether the detector's report `d` refuses the text it was made on.
pub fn is_refused(d: &Option<Detection>) -> (r: bool)
    ensures
        r == refuses(
            match d {
                None => None,
                Some(x) => Some(x.model()),
            },
        ),
{
    match d {
        None => false,
        Some(x) => {
            let latin = String::from_str("Latin");
            let eng = String::from_str("eng");
            proof {
                reveal_strlit("Latin");
                reveal_strlit("eng");
                assert(latin@ =~= latin_name());
                assert(eng@ =~= english_code());
            }
            let bits = x.confidence_bits;
            !(x.script == latin) || (!(x.lang == eng) && CONFIDENCE_LIMIT_BITS < bits && bits
                <= POSITIVE_INFINITY_BITS)
        },
    }
}

} // verus!
