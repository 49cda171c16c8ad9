//! Time and style codec.
//!
//! Pure conversions from the textual tokens of the external feeds into
//! canonical numeric and enumerated forms.  Both functions are total: a
//! malformed token never aborts the caller — a malformed time segment counts
//! as zero, an unrecognized style token maps to an explicit `Unknown`.

use vstd::prelude::*;

use crate::text::{
    all_digits, chars_of, digits_val, eq_str, is_digit, is_space, lemma_digits_val_bound4,
    parse_num, prefix_chars, spec_parse_num, spec_split, split_char, trim_end, trim_end_chars,
};

verus! {

/// Canonical swim stroke, with an explicit variant for tokens the feeds use
/// that the pipeline does not recognize.
#[derive(Clone, Copy, Debug, PartialEq, Eq, Structural)]
pub enum Style {
    Freestyle,
    Backstroke,
    Breaststroke,
    Butterfly,
    Medley,
    Unknown,
}

/// Canonical label of a style, as the relational schema stores it.
pub open spec fn spec_style_label(s: Style) -> Seq<char> {
    match s {
        Style::Freestyle => "FREESTYLE"@,
        Style::Backstroke => "BACKSTROKE"@,
        Style::Breaststroke => "BREASTSTROKE"@,
        Style::Butterfly => "BUTTERFLY"@,
        Style::Medley => "MEDLEY"@,
        Style::Unknown => "UNKNOWN"@,
    }
}

impl Style {
    /// The canonical label of this style.
    pub fn label(&self) -> (r: String)
        ensures
            r@ == spec_style_label(*self),
    {
        match self {
            Style::Freestyle => String::from_str("FREESTYLE"),
            Style::Backstroke => String::from_str("BACKSTROKE"),
            Style::Breaststroke => String::from_str("BREASTSTROKE"),
            Style::Butterfly => String::from_str("BUTTERFLY"),
            Style::Medley => String::from_str("MEDLEY"),
            Style::Unknown => String::from_str("UNKNOWN"),
        }
    }
}

/// The tolerant mapping from style tokens to canonical strokes: the
/// abbreviations both feeds use, and `Unknown` for everything else.
pub open spec fn spec_convert_style(s: Seq<char>) -> Style {
    if s == "Fr"@ || s == "Free"@ {
        Style::Freestyle
    } else if s == "Bk"@ || s == "Back"@ {
        Style::Backstroke
    } else if s == "Br"@ || s == "Breast"@ {
        Style::Breaststroke
    } else if s == "FL"@ || s == "Fly"@ {
        Style::Butterfly
    } else if s == "IM"@ || s == "I.M"@ {
        Style::Medley
    } else {
        Style::Unknown
    }
}

/// Classifies a style token.  Total: any input, known or not, yields a value.
pub fn convert_style(style: &str) -> (r: Style)
    ensures
        r == spec_convert_style(style@),
{
    if eq_str(style, "Fr") || eq_str(style, "Free") {
        Style::Freestyle
    } else if eq_str(style, "Bk") || eq_str(style, "Back") {
        Style::Backstroke
    } else if eq_str(style, "Br") || eq_str(style, "Breast") {
        Style::Breaststroke
    } else if eq_str(style, "FL") || eq_str(style, "Fly") {
        Style::Butterfly
    } else if eq_str(style, "IM") || eq_str(style, "I.M") {
        Style::Medley
    } else {
        Style::Unknown
    }
}

/// Value of one time segment: one to four ASCII digits; anything else —
/// empty, too long, or holding a non-digit — counts as zero rather than
/// aborting the caller.
pub open spec fn seg_val(s: Seq<char>) -> int {
    if 1 <= s.len() <= 4 && all_digits(s) {
        digits_val(s)
    } else {
        0
    }
}

/// A time token with its optional trailing decorations removed: trailing
/// ASCII whitespace first, then at most one trailing non-digit
/// course-suffix character.  A bare `MM:SS.CC` token is left untouched.
pub open spec fn strip_time_suffix(s: Seq<char>) -> Seq<char> {
    let t = trim_end(s);
    if t.len() > 0 && !is_digit(t.last()) {
        t.drop_last()
    } else {
        t
    }
}

/// Milliseconds encoded by a `MM:SS.CC` time token, with an optional
/// trailing course-suffix character and/or trailing whitespace, both
/// ignored.  Of what remains, the minute segment is the text before the
/// first `:`, the second segment the text between the first `:` and the
/// next `.`, and the centisecond segment the text after the last `.`.  The
/// empty token encodes zero (no time recorded), and each malformed segment
/// counts as zero.
pub open spec fn spec_time_to_ms(s: Seq<char>) -> int {
    if s.len() == 0 {
        0
    } else {
        let core = strip_time_suffix(s);
        let colon_parts = spec_split(core, ':');
        let minute = seg_val(colon_parts[0]);
        let second = if colon_parts.len() >= 2 {
            seg_val(spec_split(colon_parts[1], '.')[0])
        } else {
            0
        };
        let centi = seg_val(spec_split(core, '.').last());
        minute * 60000 + second * 1000 + centi * 10
    }
}

fn seg_value(s: &Vec<char>) -> (r: i32)
    ensures
        r as int == seg_val(s@),
        0 <= r < 10000,
{
    if s.len() < 1 || s.len() > 4 {
        return 0;
    }
    match parse_num(s) {
        Some(v) => {
            proof {
                lemma_digits_val_bound4(s@);
            }
            v
        },
        None => 0,
    }
}

/// Converts a `MM:SS.CC` time token — a trailing course suffix and/or
/// whitespace tolerated — to milliseconds, exactly as `spec_time_to_ms`
/// describes.  Total; the result is bounded by the four digit cap on each
/// segment.
pub fn time_to_miliseconds(time: &str) -> (r: i32)
    ensures
        r as int == spec_time_to_ms(time@),
        0 <= r <= 610038990,
{
    let full = chars_of(time);
    if full.len() == 0 {
        return 0;
    }
    let trimmed = trim_end_chars(&full);
    let cs: Vec<char> = if trimmed.len() > 0 {
        let lastc = trimmed[trimmed.len() - 1];
        if lastc < '0' || lastc > '9' {
            proof {
                assert(trimmed@.take(trimmed@.len() - 1) =~= trimmed@.drop_last());
            }
            prefix_chars(&trimmed, trimmed.len() - 1)
        } else {
            trimmed
        }
    } else {
        trimmed
    };
    proof {
        assert(cs@ == strip_time_suffix(full@));
    }
    let colon_parts = split_char(&cs, ':');
    proof {
        assert(colon_parts@[0].deep_view() =~= colon_parts@[0]@);
    }
    let minute = seg_value(&colon_parts[0]);
    let second: i32 = if colon_parts.len() >= 2 {
        proof {
            assert(colon_parts@[1].deep_view() =~= colon_parts@[1]@);
        }
        let dot_parts = split_char(&colon_parts[1], '.');
        proof {
            assert(dot_parts@[0].deep_view() =~= dot_parts@[0]@);
        }
        seg_value(&dot_parts[0])
    } else {
        0
    };
    let dot_all = split_char(&cs, '.');
    let last_ix = dot_all.len() - 1;
    proof {
        assert(dot_all@[last_ix as int].deep_view() =~= dot_all@[last_ix as int]@);
        assert(dot_all.deep_view()[last_ix as int] == spec_split(cs@, '.').last());
    }
    let centi = seg_value(&dot_all[last_ix]);
    minute * 60000 + second * 1000 + centi * 10
}

/// The shape a results-report time cell must have: two digits (tens capped at
/// five), a colon, two digits (tens capped at five), any one character, two
/// digits, and one course-suffix character that is not ASCII whitespace —
/// nine characters in all.  The whitespace exclusion is ASCII-scoped:
/// a character that only Unicode counts as whitespace passes as a suffix.
pub open spec fn spec_time_format(s: Seq<char>) -> bool {
    &&& s.len() == 9
    &&& '0' <= s[0] && s[0] <= '5'
    &&& is_digit(s[1])
    &&& s[2] == ':'
    &&& '0' <= s[3] && s[3] <= '5'
    &&& is_digit(s[4])
    &&& is_digit(s[6])
    &&& is_digit(s[7])
    &&& !is_space(s[8])
}

/// Checks a results-report time cell against `spec_time_format`.
pub fn matches_time_format(s: &Vec<char>) -> (r: bool)
    ensures
        r == spec_time_format(s@),
{
    if s.len() != 9 {
        return false;
    }
    let c0 = s[0];
    let c1 = s[1];
    let c2 = s[2];
    let c3 = s[3];
    let c4 = s[4];
    let c6 = s[6];
    let c7 = s[7];
    let c8 = s[8];
    ('0' <= c0 && c0 <= '5') && ('0' <= c1 && c1 <= '9') && c2 == ':' && ('0' <= c3 && c3 <= '5')
        && ('0' <= c4 && c4 <= '9') && ('0' <= c6 && c6 <= '9') && ('0' <= c7 && c7 <= '9') && !(
    c8 == ' ' || c8 == '\t' || c8 == '\n' || c8 == '\r' || c8 == '\u{b}' || c8 == '\u{c}')
}

} // verus!
