//! Diagnostics: one line per loop, made of space-separated `key=value` atoms.

use crate::config::PassConfig;
use crate::cost::Plan;
use crate::rejection::Rejection;
use crate::text::{alphanumeric, decimal, decimal_text, digit, digit_of, is_alphanumeric};
use vstd::prelude::*;
use vstd::utf8::encode_utf8;

verus! {

/// Characters that stand for themselves in an atom: ASCII letters and digits,
/// and four marks.
pub open spec fn is_plain(c: char) -> bool {
    is_alphanumeric(c) || c == '_' || c == '-' || c == '.' || c == '$'
}

/// A byte of a name in an atom: itself, or a percent sign and two upper-case
/// hexadecimal digits.
pub open spec fn encoded_byte(byte: u8) -> Seq<char> {
    if is_plain(byte as char) {
        seq![byte as char]
    } else {
        seq!['%', digit(byte as int / 16), digit(byte as int % 16)]
    }
}

/// The bytes of a name in an atom.
pub open spec fn encoded(bytes: Seq<u8>) -> Seq<char>
    decreases bytes.len(),
{
    if bytes.len() == 0 {
        Seq::empty()
    } else {
        encoded(bytes.drop_last()) + encoded_byte(bytes.last())
    }
}

/// A name as a diagnostic atom: its UTF-8 bytes, percent-encoded.
pub open spec fn atom(name: Seq<char>) -> Seq<char> {
    encoded(encode_utf8(name))
}

/// Writes a name as a diagnostic atom.
pub fn report_atom(value: &str) -> (result: String)
    ensures
        result@ == atom(value@),
{
    let bytes: &[u8] = value.as_bytes();
    let mut result: String = String::new();
    let mut k: usize = 0;
    assert(bytes@.take(0) =~= Seq::<u8>::empty());
    while k < bytes.len()
        invariant
            k <= bytes@.len(),
            bytes@ == encode_utf8(value@),
            result@ == encoded(bytes@.take(k as int)),
        decreases bytes@.len() - k,
    {
        let byte: u8 = bytes[k];
        let ghost before = result@;
        assert(bytes@.take(k + 1).drop_last() =~= bytes@.take(k as int));
        let c: char = byte as char;
        if alphanumeric(c) || c == '_' || c == '-' || c == '.' || c == '$' {
            result.push(c);
            assert(result@ =~= before + encoded_byte(byte));
        } else {
            result.push('%');
            result.push(digit_of(byte / 16));
            result.push(digit_of(byte % 16));
            assert(result@ =~= before + encoded_byte(byte));
        }
        k += 1;
    }
    assert(bytes@.take(bytes@.len() as int) =~= bytes@);
    result
}

/// The value of a hexadecimal digit.
pub open spec fn digit_value(c: char) -> int {
    if c as int <= '9' as int {
        c as int - '0' as int
    } else {
        c as int - 'A' as int + 10
    }
}

/// The bytes that an atom stands for.
pub open spec fn decoded(atom: Seq<char>) -> Seq<u8>
    decreases atom.len(),
{
    if atom.len() == 0 {
        Seq::empty()
    } else if atom[0] == '%' && atom.len() >= 3 {
        seq![(16 * digit_value(atom[1]) + digit_value(atom[2])) as u8] + decoded(atom.skip(3))
    } else {
        seq![atom[0] as u8] + decoded(atom.skip(1))
    }
}

proof fn lemma_decoded_byte(byte: u8, rest: Seq<char>)
    ensures
        decoded(encoded_byte(byte) + rest) == seq![byte] + decoded(rest),
{
    let front = encoded_byte(byte);
    let all = front + rest;
    if is_plain(byte as char) {
        assert(all.skip(1) =~= rest);
        assert(byte as char as u8 == byte);
    } else {
        reveal_strlit("0123456789ABCDEF");
        assert(all.skip(3) =~= rest);
        let high = byte as int / 16;
        let low = byte as int % 16;
        assert forall|d: int| 0 <= d < 16 implies digit_value(#[trigger] digit(d)) == d by {}
        assert(digit_value(digit(high)) == high && digit_value(digit(low)) == low);
        assert(16 * high + low == byte);
    }
}

proof fn lemma_decoded(bytes: Seq<u8>, rest: Seq<char>)
    ensures
        decoded(encoded(bytes) + rest) == bytes + decoded(rest),
    decreases bytes.len(),
{
    if bytes.len() == 0 {
        assert(encoded(bytes) + rest =~= rest);
        assert(bytes + decoded(rest) =~= decoded(rest));
    } else {
        let last = encoded_byte(bytes.last());
        lemma_decoded(bytes.drop_last(), last + rest);
        lemma_decoded_byte(bytes.last(), rest);
        assert(encoded(bytes) + rest =~= encoded(bytes.drop_last()) + (last + rest));
        assert(bytes.drop_last() + (seq![bytes.last()] + decoded(rest)) =~= bytes + decoded(
            rest,
        ));
    }
}

/// An atom stands for the bytes of its name, so that different names have
/// different atoms.
pub proof fn law_atoms_are_decodable(name: Seq<char>)
    ensures
        decoded(atom(name)) == encode_utf8(name),
{
    lemma_decoded(encode_utf8(name), Seq::empty());
    assert(atom(name) + Seq::<char>::empty() =~= atom(name));
    assert(encode_utf8(name) + Seq::<u8>::empty() =~= encode_utf8(name));
}

/// Characters that occur in atoms.
pub open spec fn is_atom_char(c: char) -> bool {
    c == '%' || is_plain(c)
}

proof fn lemma_encoded_chars(bytes: Seq<u8>)
    ensures
        forall|k: int| 0 <= k < encoded(bytes).len() ==> is_atom_char(#[trigger] encoded(bytes)[k]),
    decreases bytes.len(),
{
    if bytes.len() > 0 {
        lemma_encoded_chars(bytes.drop_last());
        reveal_strlit("0123456789ABCDEF");
        let byte = bytes.last();
        assert forall|k: int| 0 <= k < encoded_byte(byte).len() implies is_atom_char(
            #[trigger] encoded_byte(byte)[k],
        ) by {
            if !is_plain(byte as char) {
                assert forall|d: int| 0 <= d < 16 implies is_atom_char(#[trigger] digit(d)) by {}
                assert(is_atom_char(digit(byte as int / 16)));
                assert(is_atom_char(digit(byte as int % 16)));
            }
        }
        let front = encoded(bytes.drop_last());
        assert forall|k: int| 0 <= k < encoded(bytes).len() implies is_atom_char(
            #[trigger] encoded(bytes)[k],
        ) by {
            if k < front.len() {
                assert(encoded(bytes)[k] == front[k]);
            } else {
                assert(encoded(bytes)[k] == encoded_byte(byte)[k - front.len()]);
            }
        }
    }
}

/// An atom is a single word of a line: it holds letters, digits, the four marks
/// and percent signs, but no space, line break or equals sign.
pub proof fn law_atoms_are_single_words(name: Seq<char>, k: int)
    requires
        0 <= k < atom(name).len(),
    ensures
        is_atom_char(atom(name)[k]),
        atom(name)[k] != ' ',
        atom(name)[k] != '\n',
        atom(name)[k] != '=',
{
    lemma_encoded_chars(encode_utf8(name));
}

/// What was decided about a loop.
pub enum Decision {
    Vectorized(Plan),
    Rejected(Rejection),
}

impl Decision {
    /// The decision in one word.
    pub open spec fn verdict(self) -> Seq<char> {
        match self {
            Decision::Vectorized(_) => "vectorized"@,
            Decision::Rejected(_) => "rejected"@,
        }
    }

    /// Why it was taken.
    pub open spec fn cause(self) -> Seq<char> {
        match self {
            Decision::Vectorized(_) => "legal-and-profitable"@,
            Decision::Rejected(rejection) => rejection.text(),
        }
    }

    /// The planned factor, the estimated share of iterations in whole vectors
    /// and the share of lanes in use; zeros for a loop that stays scalar.
    pub open spec fn figures(self) -> (nat, nat, nat) {
        match self {
            Decision::Vectorized(plan) => (plan.vf as nat, plan.utilization_x100 as nat, 100),
            Decision::Rejected(_) => (0, 0, 0),
        }
    }
}

/// The diagnostic line of a loop. The two durations are microseconds, already
/// written out.
pub open spec fn line(
    function: Seq<char>,
    header: Seq<char>,
    decision: Decision,
    analysis: Seq<char>,
    transform: Seq<char>,
) -> Seq<char> {
    let (vf, coverage, lanes) = decision.figures();
    "rv-vectorize: function="@ + atom(function) + " loop="@ + atom(header) + " decision="@
        + decision.verdict() + " reason="@ + decision.cause() + " vf="@ + decimal(vf)
        + " estimated_vector_coverage="@ + decimal(coverage) + "% issued_lane_utilization="@
        + decimal(lanes) + "% analysis_us="@ + analysis + " transform_us="@ + transform
}

/// Writes the diagnostic line of a loop, if remarks are wanted.
pub fn report(
    config: PassConfig,
    function: &str,
    header: &str,
    decision: &Decision,
    analysis: &str,
    transform: &str,
) -> (result: Option<String>)
    ensures
        match result {
            Some(text) => config.emit_remarks && text@ == line(
                function@,
                header@,
                *decision,
                analysis@,
                transform@,
            ),
            None => !config.emit_remarks,
        },
{
    if !config.emit_remarks {
        return None;
    }
    let verdict: &str = match decision {
        Decision::Vectorized(_) => "vectorized",
        Decision::Rejected(_) => "rejected",
    };
    let cause: &str = match decision {
        Decision::Vectorized(_) => "legal-and-profitable",
        Decision::Rejected(rejection) => rejection.reason(),
    };
    let (vf, coverage, lanes): (u64, u64, u64) = match decision {
        Decision::Vectorized(plan) => (plan.vf as u64, plan.utilization_x100, 100),
        Decision::Rejected(_) => (0, 0, 0),
    };
    let mut text: String = "rv-vectorize: function=".to_owned();
    text.append(report_atom(function).as_str());
    text.append(" loop=");
    text.append(report_atom(header).as_str());
    text.append(" decision=");
    text.append(verdict);
    text.append(" reason=");
    text.append(cause);
    text.append(" vf=");
    text.append(decimal_text(vf).as_str());
    text.append(" estimated_vector_coverage=");
    text.append(decimal_text(coverage).as_str());
    text.append("% issued_lane_utilization=");
    text.append(decimal_text(lanes).as_str());
    text.append("% analysis_us=");
    text.append(analysis);
    text.append(" transform_us=");
    text.append(transform);
    Some(text)
}

/// A report tells the decision: a vectorized loop with its factor and coverage,
/// and full lanes; a loop that stays scalar with its reason, and no figures.
pub proof fn law_reports_tell_the_decision(
    function: Seq<char>,
    header: Seq<char>,
    plan: Plan,
    rejection: Rejection,
    analysis: Seq<char>,
    transform: Seq<char>,
)
    ensures
        line(function, header, Decision::Vectorized(plan), analysis, transform)
            == "rv-vectorize: function="@ + atom(function) + " loop="@ + atom(header)
            + " decision="@ + "vectorized"@ + " reason="@ + "legal-and-profitable"@ + " vf="@
            + decimal(plan.vf as nat) + " estimated_vector_coverage="@ + decimal(
            plan.utilization_x100 as nat,
        ) + "% issued_lane_utilization="@ + decimal(100) + "% analysis_us="@ + analysis
            + " transform_us="@ + transform,
        line(function, header, Decision::Rejected(rejection), analysis, transform)
            == "rv-vectorize: function="@ + atom(function) + " loop="@ + atom(header)
            + " decision="@ + "rejected"@ + " reason="@ + rejection.text() + " vf="@ + decimal(0)
            + " estimated_vector_coverage="@ + decimal(0) + "% issued_lane_utilization="@
            + decimal(0) + "% analysis_us="@ + analysis + " transform_us="@ + transform,
{
}

} // verus!
