//! Tolerant JSON decoding of the upstream response shape, and canonical
//! encoding of a response back to JSON text.
//!
//! The grammar accepted here is defined by the specification functions in
//! this module; the executable parser is proved to return exactly what they
//! say. Unknown object members are skipped; missing optional members decode
//! to "absent"; anything structurally invalid fails.

use vstd::prelude::*;

use crate::sign::push_char;
use crate::ydresponse::{ResponseModel, SentenceModel, SmartModel, YdResponse, YdSmartResult, YdTranslateResult};

verus! {

/// JSON insignificant whitespace.
pub open spec fn is_ws(c: char) -> bool {
    c == ' ' || c == '\t' || c == '\n' || c == '\r'
}

pub open spec fn is_digit(c: char) -> bool {
    48 <= c as u32 <= 57
}

/// The first index at or after `i` holding a non-whitespace character.
pub open spec fn spec_ws(s: Seq<char>, i: int) -> int
    decreases s.len() - i,
{
    if 0 <= i < s.len() && is_ws(s[i]) {
        spec_ws(s, i + 1)
    } else {
        i
    }
}

/// The first index at or after `i` holding a non-digit character.
pub open spec fn digits_end(s: Seq<char>, i: int) -> int
    decreases s.len() - i,
{
    if 0 <= i < s.len() && is_digit(s[i]) {
        digits_end(s, i + 1)
    } else {
        i
    }
}

/// The end of a lexical number token starting at or after `i`.
pub open spec fn num_end(s: Seq<char>, i: int) -> int
    decreases s.len() - i,
{
    if 0 <= i < s.len() && (is_digit(s[i]) || s[i] == '.' || s[i] == 'e' || s[i] == 'E' || s[i]
        == '+' || s[i] == '-') {
        num_end(s, i + 1)
    } else {
        i
    }
}

/// The value of the decimal digits of `s` in `[i, k)`, on top of `acc`.
pub open spec fn digits_val(s: Seq<char>, i: int, k: int, acc: int) -> int
    decreases k - i,
{
    if i < k && 0 <= i < s.len() {
        digits_val(s, i + 1, k, acc * 10 + (s[i] as u32 - 48))
    } else {
        acc
    }
}

/// The value of one hex digit, if the character is one.
pub open spec fn hex_val(c: char) -> Option<int> {
    let v = c as u32;
    if 48 <= v <= 57 {
        Some((v - 48) as int)
    } else if 97 <= v <= 102 {
        Some((v - 87) as int)
    } else if 65 <= v <= 70 {
        Some((v - 55) as int)
    } else {
        None
    }
}

/// The value of the four hex digits at `i`, if they are there.
pub open spec fn hex4(s: Seq<char>, i: int) -> Option<int> {
    if 0 <= i && i + 4 <= s.len() {
        match (hex_val(s[i]), hex_val(s[i + 1]), hex_val(s[i + 2]), hex_val(s[i + 3])) {
            (Some(a), Some(b), Some(c), Some(d)) => Some(a * 4096 + b * 256 + c * 16 + d),
            _ => None,
        }
    } else {
        None
    }
}

/// The character an escape letter stands for, for the single-letter escapes.
pub open spec fn esc_char(e: char) -> Option<char> {
    if e == '"' {
        Some('"')
    } else if e == '\\' {
        Some('\\')
    } else if e == '/' {
        Some('/')
    } else if e == 'n' {
        Some('\n')
    } else if e == 't' {
        Some('\t')
    } else if e == 'r' {
        Some('\r')
    } else if e == 'b' {
        Some('\u{8}')
    } else if e == 'f' {
        Some('\u{c}')
    } else {
        None
    }
}

pub open spec fn cons_char(c: char, r: Option<(Seq<char>, int)>) -> Option<(Seq<char>, int)> {
    match r {
        Some((t, j)) => Some((Seq::empty().push(c) + t, j)),
        None => None,
    }
}

/// The content of a JSON string whose opening quote stands just before `i`,
/// and the index just past its closing quote. Handles the single-letter
/// escapes and `\u` escapes of basic-plane characters.
pub open spec fn string_body(s: Seq<char>, i: int) -> Option<(Seq<char>, int)>
    decreases s.len() - i,
{
    if !(0 <= i < s.len()) {
        None
    } else if s[i] == '"' {
        Some((Seq::empty(), i + 1))
    } else if s[i] == '\\' {
        if i + 1 >= s.len() {
            None
        } else if s[i + 1] == 'u' {
            match hex4(s, i + 2) {
                Some(v) => if 0xD800 <= v < 0xE000 {
                    None
                } else {
                    cons_char((v as u32) as char, string_body(s, i + 6))
                },
                None => None,
            }
        } else {
            match esc_char(s[i + 1]) {
                Some(c) => cons_char(c, string_body(s, i + 2)),
                None => None,
            }
        }
    } else {
        cons_char(s[i], string_body(s, i + 1))
    }
}

/// A JSON string at `i`: content and index just past the closing quote.
pub open spec fn spec_string(s: Seq<char>, i: int) -> Option<(Seq<char>, int)> {
    if 0 <= i < s.len() && s[i] == '"' {
        string_body(s, i + 1)
    } else {
        None
    }
}

/// A JSON integer at `i` that fits a 32-bit signed value: its value and end
/// index. Fails on a leading zero, on more than ten digits, on a fraction or
/// exponent, and on a value out of range.
pub open spec fn spec_i32(s: Seq<char>, i: int) -> Option<(int, int)> {
    let neg = 0 <= i < s.len() && s[i] == '-';
    let j = if neg {
        i + 1
    } else {
        i
    };
    if !(0 <= j < s.len() && is_digit(s[j])) {
        None
    } else {
        let k = digits_end(s, j);
        if s[j] == '0' && k != j + 1 {
            None
        } else if k - j > 10 {
            None
        } else if k < s.len() && (s[k] == '.' || s[k] == 'e' || s[k] == 'E') {
            None
        } else {
            let v = digits_val(s, j, k, 0);
            let sv = if neg {
                -v
            } else {
                v
            };
            if -0x8000_0000 <= sv <= 0x7fff_ffff {
                Some((sv, k))
            } else {
                None
            }
        }
    }
}

/// Whether the literal `null` stands at `i`.
pub open spec fn is_null_at(s: Seq<char>, i: int) -> bool {
    0 <= i && i + 4 <= s.len() && s[i] == 'n' && s[i + 1] == 'u' && s[i + 2] == 'l' && s[i + 3]
        == 'l'
}

/// Skips one JSON value of any shape starting at `i`; returns the index just
/// past it. `d` bounds the recursion; the top-level entry point supplies
/// more than any input can use.
pub open spec fn skip_value(s: Seq<char>, i: int, d: nat) -> Option<int>
    decreases d,
{
    if d == 0 || !(0 <= i < s.len()) {
        None
    } else {
        let c = s[i];
        if c == '"' {
            match string_body(s, i + 1) {
                Some((_t, j)) => Some(j),
                None => None,
            }
        } else if c == '{' {
            skip_members(s, spec_ws(s, i + 1), (d - 1) as nat, true)
        } else if c == '[' {
            let j = spec_ws(s, i + 1);
            if 0 <= j < s.len() && s[j] == ']' {
                Some(j + 1)
            } else {
                skip_items(s, j, (d - 1) as nat)
            }
        } else if c == 't' {
            if i + 4 <= s.len() && s[i + 1] == 'r' && s[i + 2] == 'u' && s[i + 3] == 'e' {
                Some(i + 4)
            } else {
                None
            }
        } else if c == 'f' {
            if i + 5 <= s.len() && s[i + 1] == 'a' && s[i + 2] == 'l' && s[i + 3] == 's' && s[i + 4]
                == 'e' {
                Some(i + 5)
            } else {
                None
            }
        } else if c == 'n' {
            if is_null_at(s, i) {
                Some(i + 4)
            } else {
                None
            }
        } else if c == '-' {
            if i + 1 < s.len() && is_digit(s[i + 1]) {
                Some(num_end(s, i + 1))
            } else {
                None
            }
        } else if is_digit(c) {
            Some(num_end(s, i + 1))
        } else {
            None
        }
    }
}

/// Skips the items of an array, standing at the start of an item; returns
/// the index just past the closing bracket.
pub open spec fn skip_items(s: Seq<char>, i: int, d: nat) -> Option<int>
    decreases d,
{
    if d == 0 {
        None
    } else {
        match skip_value(s, i, (d - 1) as nat) {
            None => None,
            Some(j) => {
                let k = spec_ws(s, j);
                if 0 <= k < s.len() && s[k] == ',' {
                    skip_items(s, spec_ws(s, k + 1), (d - 1) as nat)
                } else if 0 <= k < s.len() && s[k] == ']' {
                    Some(k + 1)
                } else {
                    None
                }
            },
        }
    }
}

/// Skips the members of an object, standing just after `{` (whitespace
/// skipped) or at the start of a member; returns the index just past the
/// closing brace.
pub open spec fn skip_members(s: Seq<char>, i: int, d: nat, first: bool) -> Option<int>
    decreases d,
{
    if d == 0 {
        None
    } else if first && 0 <= i < s.len() && s[i] == '}' {
        Some(i + 1)
    } else {
        match spec_string(s, i) {
            None => None,
            Some((_key, j)) => {
                let k = spec_ws(s, j);
                if !(0 <= k < s.len() && s[k] == ':') {
                    None
                } else {
                    match skip_value(s, spec_ws(s, k + 1), (d - 1) as nat) {
                        None => None,
                        Some(m) => {
                            let n = spec_ws(s, m);
                            if 0 <= n < s.len() && s[n] == ',' {
                                skip_members(s, spec_ws(s, n + 1), (d - 1) as nat, false)
                            } else if 0 <= n < s.len() && s[n] == '}' {
                                Some(n + 1)
                            } else {
                                None
                            }
                        },
                    }
                }
            },
        }
    }
}

/// Parses a sentence object `{"src": ..., "tgt": ...}`, other members
/// skipped, both texts required.
pub open spec fn parse_sentence(s: Seq<char>, i: int, d: nat) -> Option<(SentenceModel, int)>
    decreases d,
{
    if d == 0 || !(0 <= i < s.len() && s[i] == '{') {
        None
    } else {
        parse_sentence_members(s, spec_ws(s, i + 1), (d - 1) as nat, None, None, true)
    }
}

pub open spec fn finish_sentence(src: Option<Seq<char>>, tgt: Option<Seq<char>>, j: int) -> Option<
    (SentenceModel, int),
> {
    match (src, tgt) {
        (Some(sv), Some(tv)) => Some((SentenceModel { source: sv, target: tv }, j)),
        _ => None,
    }
}

pub open spec fn parse_sentence_members(
    s: Seq<char>,
    i: int,
    d: nat,
    src: Option<Seq<char>>,
    tgt: Option<Seq<char>>,
    first: bool,
) -> Option<(SentenceModel, int)>
    decreases d,
{
    if d == 0 {
        None
    } else if first && 0 <= i < s.len() && s[i] == '}' {
        finish_sentence(src, tgt, i + 1)
    } else {
        match spec_string(s, i) {
            None => None,
            Some((key, j)) => {
                let k = spec_ws(s, j);
                if !(0 <= k < s.len() && s[k] == ':') {
                    None
                } else {
                    let v = spec_ws(s, k + 1);
                    let step: Option<(Option<Seq<char>>, Option<Seq<char>>, int)> = if key
                        == "src"@ {
                        match spec_string(s, v) {
                            Some((t, m)) => Some((Some(t), tgt, m)),
                            None => None,
                        }
                    } else if key == "tgt"@ {
                        match spec_string(s, v) {
                            Some((t, m)) => Some((src, Some(t), m)),
                            None => None,
                        }
                    } else {
                        match skip_value(s, v, (d - 1) as nat) {
                            Some(m) => Some((src, tgt, m)),
                            None => None,
                        }
                    };
                    match step {
                        None => None,
                        Some((src2, tgt2, m)) => {
                            let n = spec_ws(s, m);
                            if 0 <= n < s.len() && s[n] == ',' {
                                parse_sentence_members(
                                    s,
                                    spec_ws(s, n + 1),
                                    (d - 1) as nat,
                                    src2,
                                    tgt2,
                                    false,
                                )
                            } else if 0 <= n < s.len() && s[n] == '}' {
                                finish_sentence(src2, tgt2, n + 1)
                            } else {
                                None
                            }
                        },
                    }
                }
            },
        }
    }
}

/// Parses a paragraph: an array of sentence objects.
pub open spec fn parse_paragraph(s: Seq<char>, i: int, d: nat) -> Option<(Seq<SentenceModel>, int)>
    decreases d,
{
    if d == 0 || !(0 <= i < s.len() && s[i] == '[') {
        None
    } else {
        let j = spec_ws(s, i + 1);
        if 0 <= j < s.len() && s[j] == ']' {
            Some((Seq::empty(), j + 1))
        } else {
            parse_paragraph_items(s, j, (d - 1) as nat)
        }
    }
}

pub open spec fn parse_paragraph_items(s: Seq<char>, i: int, d: nat) -> Option<
    (Seq<SentenceModel>, int),
>
    decreases d,
{
    if d == 0 {
        None
    } else {
        match parse_sentence(s, i, (d - 1) as nat) {
            None => None,
            Some((st, j)) => {
                let k = spec_ws(s, j);
                if 0 <= k < s.len() && s[k] == ',' {
                    match parse_paragraph_items(s, spec_ws(s, k + 1), (d - 1) as nat) {
                        None => None,
                        Some((rest, m)) => Some((Seq::empty().push(st) + rest, m)),
                    }
                } else if 0 <= k < s.len() && s[k] == ']' {
                    Some((Seq::empty().push(st), k + 1))
                } else {
                    None
                }
            },
        }
    }
}

/// Parses the translation section: an array of paragraphs.
pub open spec fn parse_paragraphs(s: Seq<char>, i: int, d: nat) -> Option<
    (Seq<Seq<SentenceModel>>, int),
>
    decreases d,
{
    if d == 0 || !(0 <= i < s.len() && s[i] == '[') {
        None
    } else {
        let j = spec_ws(s, i + 1);
        if 0 <= j < s.len() && s[j] == ']' {
            Some((Seq::empty(), j + 1))
        } else {
            parse_paragraphs_items(s, j, (d - 1) as nat)
        }
    }
}

pub open spec fn parse_paragraphs_items(s: Seq<char>, i: int, d: nat) -> Option<
    (Seq<Seq<SentenceModel>>, int),
>
    decreases d,
{
    if d == 0 {
        None
    } else {
        match parse_paragraph(s, i, (d - 1) as nat) {
            None => None,
            Some((p, j)) => {
                let k = spec_ws(s, j);
                if 0 <= k < s.len() && s[k] == ',' {
                    match parse_paragraphs_items(s, spec_ws(s, k + 1), (d - 1) as nat) {
                        None => None,
                        Some((rest, m)) => Some((Seq::empty().push(p) + rest, m)),
                    }
                } else if 0 <= k < s.len() && s[k] == ']' {
                    Some((Seq::empty().push(p), k + 1))
                } else {
                    None
                }
            },
        }
    }
}

/// Parses an array of strings (the smart-result entries).
pub open spec fn parse_strings(s: Seq<char>, i: int, d: nat) -> Option<(Seq<Seq<char>>, int)>
    decreases d,
{
    if d == 0 || !(0 <= i < s.len() && s[i] == '[') {
        None
    } else {
        let j = spec_ws(s, i + 1);
        if 0 <= j < s.len() && s[j] == ']' {
            Some((Seq::empty(), j + 1))
        } else {
            parse_strings_items(s, j, (d - 1) as nat)
        }
    }
}

pub open spec fn parse_strings_items(s: Seq<char>, i: int, d: nat) -> Option<(Seq<Seq<char>>, int)>
    decreases d,
{
    if d == 0 {
        None
    } else {
        match spec_string(s, i) {
            None => None,
            Some((t, j)) => {
                let k = spec_ws(s, j);
                if 0 <= k < s.len() && s[k] == ',' {
                    match parse_strings_items(s, spec_ws(s, k + 1), (d - 1) as nat) {
                        None => None,
                        Some((rest, m)) => Some((Seq::empty().push(t) + rest, m)),
                    }
                } else if 0 <= k < s.len() && s[k] == ']' {
                    Some((Seq::empty().push(t), k + 1))
                } else {
                    None
                }
            },
        }
    }
}

/// Parses the smart-result object: `entries` and `type` required, other
/// members skipped.
pub open spec fn parse_smart(s: Seq<char>, i: int, d: nat) -> Option<(SmartModel, int)>
    decreases d,
{
    if d == 0 || !(0 <= i < s.len() && s[i] == '{') {
        None
    } else {
        parse_smart_members(s, spec_ws(s, i + 1), (d - 1) as nat, None, None, true)
    }
}

pub open spec fn finish_smart(entries: Option<Seq<Seq<char>>>, typ: Option<int>, j: int) -> Option<
    (SmartModel, int),
> {
    match (entries, typ) {
        (Some(ev), Some(tv)) => Some((SmartModel { entries: ev, typ: tv }, j)),
        _ => None,
    }
}

pub open spec fn parse_smart_members(
    s: Seq<char>,
    i: int,
    d: nat,
    entries: Option<Seq<Seq<char>>>,
    typ: Option<int>,
    first: bool,
) -> Option<(SmartModel, int)>
    decreases d,
{
    if d == 0 {
        None
    } else if first && 0 <= i < s.len() && s[i] == '}' {
        finish_smart(entries, typ, i + 1)
    } else {
        match spec_string(s, i) {
            None => None,
            Some((key, j)) => {
                let k = spec_ws(s, j);
                if !(0 <= k < s.len() && s[k] == ':') {
                    None
                } else {
                    let v = spec_ws(s, k + 1);
                    let step: Option<(Option<Seq<Seq<char>>>, Option<int>, int)> = if key
                        == "entries"@ {
                        match parse_strings(s, v, (d - 1) as nat) {
                            Some((ev, m)) => Some((Some(ev), typ, m)),
                            None => None,
                        }
                    } else if key == "type"@ {
                        match spec_i32(s, v) {
                            Some((n, m)) => Some((entries, Some(n), m)),
                            None => None,
                        }
                    } else {
                        match skip_value(s, v, (d - 1) as nat) {
                            Some(m) => Some((entries, typ, m)),
                            None => None,
                        }
                    };
                    match step {
                        None => None,
                        Some((entries2, typ2, m)) => {
                            let n = spec_ws(s, m);
                            if 0 <= n < s.len() && s[n] == ',' {
                                parse_smart_members(
                                    s,
                                    spec_ws(s, n + 1),
                                    (d - 1) as nat,
                                    entries2,
                                    typ2,
                                    false,
                                )
                            } else if 0 <= n < s.len() && s[n] == '}' {
                                finish_smart(entries2, typ2, n + 1)
                            } else {
                                None
                            }
                        },
                    }
                }
            },
        }
    }
}

pub open spec fn flat<A>(o: Option<Option<A>>) -> Option<A> {
    match o {
        Some(v) => v,
        None => None,
    }
}

pub open spec fn finish_top(
    ec: Option<int>,
    tr: Option<Option<Seq<Seq<SentenceModel>>>>,
    sr: Option<Option<SmartModel>>,
    j: int,
) -> Option<(ResponseModel, int)> {
    match ec {
        Some(n) => Some(
            (ResponseModel { error_code: n, translate: flat(tr), smart: flat(sr) }, j),
        ),
        None => None,
    }
}

/// Parses the top-level response object: `errorCode` required,
/// `translateResult` and `smartResult` optional (absent or `null` both mean
/// absent), every other member skipped.
pub open spec fn parse_top(s: Seq<char>, i: int, d: nat) -> Option<(ResponseModel, int)>
    decreases d,
{
    if d == 0 || !(0 <= i < s.len() && s[i] == '{') {
        None
    } else {
        parse_top_members(s, spec_ws(s, i + 1), (d - 1) as nat, None, None, None, true)
    }
}

pub open spec fn parse_top_members(
    s: Seq<char>,
    i: int,
    d: nat,
    ec: Option<int>,
    tr: Option<Option<Seq<Seq<SentenceModel>>>>,
    sr: Option<Option<SmartModel>>,
    first: bool,
) -> Option<(ResponseModel, int)>
    decreases d,
{
    if d == 0 {
        None
    } else if first && 0 <= i < s.len() && s[i] == '}' {
        finish_top(ec, tr, sr, i + 1)
    } else {
        match spec_string(s, i) {
            None => None,
            Some((key, j)) => {
                let k = spec_ws(s, j);
                if !(0 <= k < s.len() && s[k] == ':') {
                    None
                } else {
                    let v = spec_ws(s, k + 1);
                    let step: Option<
                        (
                            Option<int>,
                            Option<Option<Seq<Seq<SentenceModel>>>>,
                            Option<Option<SmartModel>>,
                            int,
                        ),
                    > = if key == "errorCode"@ {
                        match spec_i32(s, v) {
                            Some((n, m)) => Some((Some(n), tr, sr, m)),
                            None => None,
                        }
                    } else if key == "translateResult"@ {
                        if is_null_at(s, v) {
                            Some((ec, Some(None), sr, v + 4))
                        } else {
                            match parse_paragraphs(s, v, (d - 1) as nat) {
                                Some((ps, m)) => Some((ec, Some(Some(ps)), sr, m)),
                                None => None,
                            }
                        }
                    } else if key == "smartResult"@ {
                        if is_null_at(s, v) {
                            Some((ec, tr, Some(None), v + 4))
                        } else {
                            match parse_smart(s, v, (d - 1) as nat) {
                                Some((sm, m)) => Some((ec, tr, Some(Some(sm)), m)),
                                None => None,
                            }
                        }
                    } else {
                        match skip_value(s, v, (d - 1) as nat) {
                            Some(m) => Some((ec, tr, sr, m)),
                            None => None,
                        }
                    };
                    match step {
                        None => None,
                        Some((ec2, tr2, sr2, m)) => {
                            let n = spec_ws(s, m);
                            if 0 <= n < s.len() && s[n] == ',' {
                                parse_top_members(
                                    s,
                                    spec_ws(s, n + 1),
                                    (d - 1) as nat,
                                    ec2,
                                    tr2,
                                    sr2,
                                    false,
                                )
                            } else if 0 <= n < s.len() && s[n] == '}' {
                                finish_top(ec2, tr2, sr2, n + 1)
                            } else {
                                None
                            }
                        },
                    }
                }
            },
        }
    }
}

/// The recursion budget the decoder starts with: more than any step of the
/// parse can use, so the budget never runs out on any input.
pub open spec fn fuel_for(s: Seq<char>) -> nat {
    (8 * s.len() + 32) as nat
}

/// The decoded model of a response body: the top-level object with nothing
/// but whitespace around it, or nothing if the body is not of that shape.
pub open spec fn decode_spec(s: Seq<char>) -> Option<ResponseModel> {
    match parse_top(s, spec_ws(s, 0), fuel_for(s)) {
        None => None,
        Some((m, j)) => if spec_ws(s, j) == s.len() {
            Some(m)
        } else {
            None
        },
    }
}

// ---------------------------------------------------------------------------
// The executable parser. Each function returns exactly what the matching
// specification function above says, stated through the `m_*` predicates.
// ---------------------------------------------------------------------------
pub open spec fn m_idx(r: Option<usize>, sp: Option<int>, len: nat) -> bool {
    match (r, sp) {
        (Some(a), Some(b)) => a as int == b && a <= len,
        (None, None) => true,
        _ => false,
    }
}

pub open spec fn m_str(r: Option<(String, usize)>, sp: Option<(Seq<char>, int)>, len: nat) -> bool {
    match (r, sp) {
        (Some(a), Some(b)) => a.0@ == b.0 && a.1 as int == b.1 && a.1 <= len,
        (None, None) => true,
        _ => false,
    }
}

pub open spec fn m_i32(r: Option<(i32, usize)>, sp: Option<(int, int)>, len: nat) -> bool {
    match (r, sp) {
        (Some(a), Some(b)) => a.0 as int == b.0 && a.1 as int == b.1 && a.1 <= len,
        (None, None) => true,
        _ => false,
    }
}

pub open spec fn m_sent(
    r: Option<(YdTranslateResult, usize)>,
    sp: Option<(SentenceModel, int)>,
    len: nat,
) -> bool {
    match (r, sp) {
        (Some(a), Some(b)) => a.0.deep_view() == b.0 && a.1 as int == b.1 && a.1 <= len,
        (None, None) => true,
        _ => false,
    }
}

pub open spec fn m_para(
    r: Option<(Vec<YdTranslateResult>, usize)>,
    sp: Option<(Seq<SentenceModel>, int)>,
    len: nat,
) -> bool {
    match (r, sp) {
        (Some(a), Some(b)) => a.0.deep_view() == b.0 && a.1 as int == b.1 && a.1 <= len,
        (None, None) => true,
        _ => false,
    }
}

pub open spec fn m_paras(
    r: Option<(Vec<Vec<YdTranslateResult>>, usize)>,
    sp: Option<(Seq<Seq<SentenceModel>>, int)>,
    len: nat,
) -> bool {
    match (r, sp) {
        (Some(a), Some(b)) => a.0.deep_view() == b.0 && a.1 as int == b.1 && a.1 <= len,
        (None, None) => true,
        _ => false,
    }
}

pub open spec fn m_strs(
    r: Option<(Vec<String>, usize)>,
    sp: Option<(Seq<Seq<char>>, int)>,
    len: nat,
) -> bool {
    match (r, sp) {
        (Some(a), Some(b)) => a.0.deep_view() == b.0 && a.1 as int == b.1 && a.1 <= len,
        (None, None) => true,
        _ => false,
    }
}

pub open spec fn m_smart(
    r: Option<(YdSmartResult, usize)>,
    sp: Option<(SmartModel, int)>,
    len: nat,
) -> bool {
    match (r, sp) {
        (Some(a), Some(b)) => a.0@ == b.0 && a.1 as int == b.1 && a.1 <= len,
        (None, None) => true,
        _ => false,
    }
}

pub open spec fn m_top(
    r: Option<(YdResponse, usize)>,
    sp: Option<(ResponseModel, int)>,
    len: nat,
) -> bool {
    match (r, sp) {
        (Some(a), Some(b)) => a.0@ == b.0 && a.1 as int == b.1 && a.1 <= len,
        (None, None) => true,
        _ => false,
    }
}

fn is_digit_x(c: char) -> (r: bool)
    ensures
        r == is_digit(c),
{
    let v = c as u32;
    48 <= v && v <= 57
}

fn ws_end(s: &Vec<char>, i: usize) -> (r: usize)
    requires
        i <= s@.len(),
    ensures
        r as int == spec_ws(s@, i as int),
        i <= r <= s@.len(),
{
    let mut j = i;
    while j < s.len() && (s[j] == ' ' || s[j] == '\t' || s[j] == '\n' || s[j] == '\r')
        invariant
            i <= j <= s@.len(),
            spec_ws(s@, i as int) == spec_ws(s@, j as int),
        decreases s@.len() - j,
    {
        j = j + 1;
    }
    j
}

fn digits_end_x(s: &Vec<char>, i: usize) -> (r: usize)
    requires
        i <= s@.len(),
    ensures
        r as int == digits_end(s@, i as int),
        i <= r <= s@.len(),
{
    let mut j = i;
    while j < s.len() && is_digit_x(s[j])
        invariant
            i <= j <= s@.len(),
            digits_end(s@, i as int) == digits_end(s@, j as int),
        decreases s@.len() - j,
    {
        j = j + 1;
    }
    j
}

fn num_end_x(s: &Vec<char>, i: usize) -> (r: usize)
    requires
        i <= s@.len(),
    ensures
        r as int == num_end(s@, i as int),
        i <= r <= s@.len(),
{
    let mut j = i;
    while j < s.len() && (is_digit_x(s[j]) || s[j] == '.' || s[j] == 'e' || s[j] == 'E' || s[j]
        == '+' || s[j] == '-')
        invariant
            i <= j <= s@.len(),
            num_end(s@, i as int) == num_end(s@, j as int),
        decreases s@.len() - j,
    {
        j = j + 1;
    }
    j
}

fn hex_val_x(c: char) -> (r: Option<u8>)
    ensures
        match (r, hex_val(c)) {
            (Some(a), Some(b)) => a as int == b,
            (None, None) => true,
            _ => false,
        },
{
    let v = c as u32;
    if 48 <= v && v <= 57 {
        Some((v - 48) as u8)
    } else if 97 <= v && v <= 102 {
        Some((v - 87) as u8)
    } else if 65 <= v && v <= 70 {
        Some((v - 55) as u8)
    } else {
        None
    }
}

fn hex4_x(s: &Vec<char>, i: usize) -> (r: Option<u32>)
    requires
        i <= s@.len(),
    ensures
        match (r, hex4(s@, i as int)) {
            (Some(a), Some(b)) => a as int == b && b < 0x10000,
            (None, None) => true,
            _ => false,
        },
{
    if s.len() - i >= 4 {
        match (hex_val_x(s[i]), hex_val_x(s[i + 1]), hex_val_x(s[i + 2]), hex_val_x(s[i + 3])) {
            (Some(a), Some(b), Some(c), Some(d)) => Some(
                a as u32 * 4096 + b as u32 * 256 + c as u32 * 16 + d as u32,
            ),
            _ => None,
        }
    } else {
        None
    }
}

/// Relies on `char::from_u32`: a `Some` for exactly the valid scalar values
/// (not a surrogate, at most 0x10FFFF), holding the character with that
/// value.
#[verifier::external_body]
fn char_from_u32(v: u32) -> (r: Option<char>)
    ensures
        r == (if v < 0xD800 || (0xE000 <= v && v <= 0x10FFFF) {
            Some(v as char)
        } else {
            None::<char>
        }),
{
    char::from_u32(v)
}

fn esc_char_x(e: char) -> (r: Option<char>)
    ensures
        r == esc_char(e),
{
    if e == '"' {
        Some('"')
    } else if e == '\\' {
        Some('\\')
    } else if e == '/' {
        Some('/')
    } else if e == 'n' {
        Some('\n')
    } else if e == 't' {
        Some('\t')
    } else if e == 'r' {
        Some('\r')
    } else if e == 'b' {
        Some('\u{8}')
    } else if e == 'f' {
        Some('\u{c}')
    } else {
        None
    }
}

pub open spec fn cons_prefix(p: Seq<char>, r: Option<(Seq<char>, int)>) -> Option<
    (Seq<char>, int),
> {
    match r {
        Some((t, j)) => Some((p + t, j)),
        None => None,
    }
}

fn parse_string_x(s: &Vec<char>, i: usize) -> (r: Option<(String, usize)>)
    requires
        i <= s@.len(),
    ensures
        m_str(r, spec_string(s@, i as int), s@.len() as nat),
{
    if !(i < s.len() && s[i] == '"') {
        return None;
    }
    let mut acc = String::new();
    let mut cur: usize = i + 1;
    proof {
        match string_body(s@, i as int + 1) {
            Some((t, j)) => {
                assert(Seq::<char>::empty() + t =~= t);
            },
            None => {},
        }
    }
    loop
        invariant
            i as int + 1 <= cur as int,
            cur <= s@.len(),
            spec_string(s@, i as int) == cons_prefix(acc@, string_body(s@, cur as int)),
        decreases s@.len() - cur,
    {
        if cur >= s.len() {
            return None;
        }
        let c = s[cur];
        if c == '"' {
            proof {
                assert(acc@ + Seq::<char>::empty() =~= acc@);
            }
            return Some((acc, cur + 1));
        } else if c == '\\' {
            if cur + 1 >= s.len() {
                return None;
            }
            let e = s[cur + 1];
            if e == 'u' {
                match hex4_x(s, cur + 2) {
                    None => {
                        return None;
                    },
                    Some(v) => {
                        if 0xD800 <= v && v < 0xE000 {
                            return None;
                        }
                        match char_from_u32(v) {
                            None => {
                                return None;
                            },
                            Some(ch) => {
                                let ghost acc_old = acc@;
                                push_char(&mut acc, ch);
                                cur = cur + 6;
                                proof {
                                    match string_body(s@, cur as int) {
                                        Some((t, j)) => {
                                            assert(acc_old + (Seq::<char>::empty().push(ch) + t)
                                                =~= acc_old.push(ch) + t);
                                        },
                                        None => {},
                                    }
                                }
                            },
                        }
                    },
                }
            } else {
                match esc_char_x(e) {
                    None => {
                        return None;
                    },
                    Some(c2) => {
                        let ghost acc_old = acc@;
                        push_char(&mut acc, c2);
                        cur = cur + 2;
                        proof {
                            match string_body(s@, cur as int) {
                                Some((t, j)) => {
                                    assert(acc_old + (Seq::<char>::empty().push(c2) + t)
                                        =~= acc_old.push(c2) + t);
                                },
                                None => {},
                            }
                        }
                    },
                }
            }
        } else {
            let ghost acc_old = acc@;
            push_char(&mut acc, c);
            cur = cur + 1;
            proof {
                match string_body(s@, cur as int) {
                    Some((t, j)) => {
                        assert(acc_old + (Seq::<char>::empty().push(c) + t) =~= acc_old.push(c)
                            + t);
                    },
                    None => {},
                }
            }
        }
    }
}

pub open spec fn pow10(n: nat) -> int
    decreases n,
{
    if n == 0 {
        1
    } else {
        10 * pow10((n - 1) as nat)
    }
}

pub proof fn lemma_pow10_pos(n: nat)
    ensures
        pow10(n) >= 1,
    decreases n,
{
    if n > 0 {
        lemma_pow10_pos((n - 1) as nat);
    }
}

pub proof fn lemma_pow10_mono(a: nat, b: nat)
    requires
        a <= b,
    ensures
        pow10(a) <= pow10(b),
    decreases b,
{
    if a < b {
        lemma_pow10_mono(a, (b - 1) as nat);
        lemma_pow10_pos((b - 1) as nat);
    }
}

proof fn lemma_digits_end_range(s: Seq<char>, i: int, t: int)
    requires
        0 <= i <= t,
        t < digits_end(s, i),
    ensures
        t < s.len(),
        is_digit(s[t]),
    decreases t - i,
{
    if !(0 <= i < s.len() && is_digit(s[i])) {
        assert(digits_end(s, i) == i);
    } else if t > i {
        lemma_digits_end_range(s, i + 1, t);
    }
}

fn parse_i32_x(s: &Vec<char>, i: usize) -> (r: Option<(i32, usize)>)
    requires
        i <= s@.len(),
    ensures
        m_i32(r, spec_i32(s@, i as int), s@.len() as nat),
{
    let neg = i < s.len() && s[i] == '-';
    let j = if neg {
        i + 1
    } else {
        i
    };
    if !(j < s.len() && is_digit_x(s[j])) {
        return None;
    }
    let k = digits_end_x(s, j);
    if s[j] == '0' && k != j + 1 {
        return None;
    }
    if k - j > 10 {
        return None;
    }
    if k < s.len() && (s[k] == '.' || s[k] == 'e' || s[k] == 'E') {
        return None;
    }
    let mut acc: i64 = 0;
    let mut t = j;
    while t < k
        invariant
            j <= t <= k,
            k <= s@.len(),
            k as int == digits_end(s@, j as int),
            k - j <= 10,
            0 <= acc,
            acc < pow10((t - j) as nat),
            digits_val(s@, j as int, k as int, 0) == digits_val(s@, t as int, k as int, acc as int),
        decreases k - t,
    {
        proof {
            lemma_digits_end_range(s@, j as int, t as int);
            lemma_pow10_pos((t - j) as nat);
            assert(acc * 10 <= (pow10((t - j) as nat) - 1) * 10) by (nonlinear_arith)
                requires
                    acc <= pow10((t - j) as nat) - 1,
                    pow10((t - j) as nat) >= 1,
            ;
            assert(pow10((t + 1 - j) as nat) == 10 * pow10((t - j) as nat));
            lemma_pow10_mono((t - j) as nat, 9);
            reveal_with_fuel(pow10, 11);
            assert(pow10(9) == 1000000000);
        }
        let c = s[t];
        let d = (c as u32 - 48) as i64;
        acc = acc * 10 + d;
        t = t + 1;
    }
    let sv: i64 = if neg {
        -acc
    } else {
        acc
    };
    if -2147483648 <= sv && sv <= 2147483647 {
        Some((sv as i32, k))
    } else {
        None
    }
}

fn is_null_x(s: &Vec<char>, i: usize) -> (r: bool)
    requires
        i <= s@.len(),
    ensures
        r == is_null_at(s@, i as int),
{
    s.len() - i >= 4 && s[i] == 'n' && s[i + 1] == 'u' && s[i + 2] == 'l' && s[i + 3] == 'l'
}

fn str_eq(a: &str, b: &str) -> (r: bool)
    ensures
        r == (a@ == b@),
{
    let n = a.unicode_len();
    let m = b.unicode_len();
    if n != m {
        proof {
            if a@ == b@ {
                assert(a@.len() == b@.len());
            }
        }
        return false;
    }
    let mut i: usize = 0;
    while i < n
        invariant
            n == a@.len(),
            n == b@.len(),
            i <= n,
            forall|q: int| 0 <= q < i ==> a@[q] == b@[q],
        decreases n - i,
    {
        if a.get_char(i) != b.get_char(i) {
            return false;
        }
        i = i + 1;
    }
    proof {
        assert(a@ =~= b@);
    }
    true
}

fn skip_value_x(s: &Vec<char>, i: usize, fuel: u128) -> (r: Option<usize>)
    requires
        i <= s@.len(),
    ensures
        m_idx(r, skip_value(s@, i as int, fuel as nat), s@.len() as nat),
    decreases fuel,
{
    if fuel == 0 || i >= s.len() {
        return None;
    }
    let c = s[i];
    if c == '"' {
        match parse_string_x(s, i) {
            Some((_t, j)) => Some(j),
            None => None,
        }
    } else if c == '{' {
        let j = ws_end(s, i + 1);
        skip_members_x(s, j, fuel - 1, true)
    } else if c == '[' {
        let j = ws_end(s, i + 1);
        if j < s.len() && s[j] == ']' {
            Some(j + 1)
        } else {
            skip_items_x(s, j, fuel - 1)
        }
    } else if c == 't' {
        if s.len() - i >= 4 && s[i + 1] == 'r' && s[i + 2] == 'u' && s[i + 3] == 'e' {
            Some(i + 4)
        } else {
            None
        }
    } else if c == 'f' {
        if s.len() - i >= 5 && s[i + 1] == 'a' && s[i + 2] == 'l' && s[i + 3] == 's' && s[i + 4]
            == 'e' {
            Some(i + 5)
        } else {
            None
        }
    } else if c == 'n' {
        if is_null_x(s, i) {
            Some(i + 4)
        } else {
            None
        }
    } else if c == '-' {
        if i + 1 < s.len() && is_digit_x(s[i + 1]) {
            Some(num_end_x(s, i + 1))
        } else {
            None
        }
    } else if is_digit_x(c) {
        Some(num_end_x(s, i + 1))
    } else {
        None
    }
}

fn skip_items_x(s: &Vec<char>, i: usize, fuel: u128) -> (r: Option<usize>)
    requires
        i <= s@.len(),
    ensures
        m_idx(r, skip_items(s@, i as int, fuel as nat), s@.len() as nat),
    decreases fuel,
{
    if fuel == 0 {
        return None;
    }
    match skip_value_x(s, i, fuel - 1) {
        None => None,
        Some(j) => {
            let k = ws_end(s, j);
            if k < s.len() && s[k] == ',' {
                let n = ws_end(s, k + 1);
                skip_items_x(s, n, fuel - 1)
            } else if k < s.len() && s[k] == ']' {
                Some(k + 1)
            } else {
                None
            }
        },
    }
}

fn skip_members_x(s: &Vec<char>, i: usize, fuel: u128, first: bool) -> (r: Option<usize>)
    requires
        i <= s@.len(),
    ensures
        m_idx(r, skip_members(s@, i as int, fuel as nat, first), s@.len() as nat),
    decreases fuel,
{
    if fuel == 0 {
        return None;
    }
    if first && i < s.len() && s[i] == '}' {
        return Some(i + 1);
    }
    match parse_string_x(s, i) {
        None => None,
        Some((_key, j)) => {
            let k = ws_end(s, j);
            if !(k < s.len() && s[k] == ':') {
                return None;
            }
            let v = ws_end(s, k + 1);
            match skip_value_x(s, v, fuel - 1) {
                None => None,
                Some(m) => {
                    let n = ws_end(s, m);
                    if n < s.len() && s[n] == ',' {
                        let p = ws_end(s, n + 1);
                        skip_members_x(s, p, fuel - 1, false)
                    } else if n < s.len() && s[n] == '}' {
                        Some(n + 1)
                    } else {
                        None
                    }
                },
            }
        },
    }
}

pub open spec fn opt_str_view(o: Option<String>) -> Option<Seq<char>> {
    match o {
        Some(s) => Some(s@),
        None => None,
    }
}

pub open spec fn opt_i32_view(o: Option<i32>) -> Option<int> {
    match o {
        Some(n) => Some(n as int),
        None => None,
    }
}

pub open spec fn opt_strs_view(o: Option<Vec<String>>) -> Option<Seq<Seq<char>>> {
    match o {
        Some(v) => Some(v.deep_view()),
        None => None,
    }
}

pub open spec fn opt_tr_view(o: Option<Option<Vec<Vec<YdTranslateResult>>>>) -> Option<
    Option<Seq<Seq<SentenceModel>>>,
> {
    match o {
        Some(Some(v)) => Some(Some(v.deep_view())),
        Some(None) => Some(None),
        None => None,
    }
}

pub open spec fn opt_sr_view(o: Option<Option<YdSmartResult>>) -> Option<Option<SmartModel>> {
    match o {
        Some(Some(v)) => Some(Some(v@)),
        Some(None) => Some(None),
        None => None,
    }
}

fn finish_sentence_x(src: Option<String>, tgt: Option<String>, j: usize) -> (r: Option<
    (YdTranslateResult, usize),
>)
    ensures
        match (r, finish_sentence(opt_str_view(src), opt_str_view(tgt), j as int)) {
            (Some(a), Some(b)) => a.0.deep_view() == b.0 && a.1 as int == b.1 && a.1 == j,
            (None, None) => true,
            _ => false,
        },
{
    match (src, tgt) {
        (Some(sv), Some(tv)) => Some((YdTranslateResult { source: sv, target: tv }, j)),
        _ => None,
    }
}

fn parse_sentence_x(s: &Vec<char>, i: usize, fuel: u128) -> (r: Option<(YdTranslateResult, usize)>)
    requires
        i <= s@.len(),
    ensures
        m_sent(r, parse_sentence(s@, i as int, fuel as nat), s@.len() as nat),
    decreases fuel,
{
    if fuel == 0 || !(i < s.len() && s[i] == '{') {
        return None;
    }
    let j = ws_end(s, i + 1);
    parse_sentence_members_x(s, j, fuel - 1, None, None, true)
}

fn parse_sentence_members_x(
    s: &Vec<char>,
    i: usize,
    fuel: u128,
    src: Option<String>,
    tgt: Option<String>,
    first: bool,
) -> (r: Option<(YdTranslateResult, usize)>)
    requires
        i <= s@.len(),
    ensures
        m_sent(
            r,
            parse_sentence_members(
                s@,
                i as int,
                fuel as nat,
                opt_str_view(src),
                opt_str_view(tgt),
                first,
            ),
            s@.len() as nat,
        ),
    decreases fuel,
{
    if fuel == 0 {
        return None;
    }
    if first && i < s.len() && s[i] == '}' {
        return finish_sentence_x(src, tgt, i + 1);
    }
    match parse_string_x(s, i) {
        None => None,
        Some((key, j)) => {
            let k = ws_end(s, j);
            if !(k < s.len() && s[k] == ':') {
                return None;
            }
            let v = ws_end(s, k + 1);
            let step: Option<(Option<String>, Option<String>, usize)> = if str_eq(
                key.as_str(),
                "src",
            ) {
                match parse_string_x(s, v) {
                    Some((t, m)) => Some((Some(t), tgt, m)),
                    None => None,
                }
            } else if str_eq(key.as_str(), "tgt") {
                match parse_string_x(s, v) {
                    Some((t, m)) => Some((src, Some(t), m)),
                    None => None,
                }
            } else {
                match skip_value_x(s, v, fuel - 1) {
                    Some(m) => Some((src, tgt, m)),
                    None => None,
                }
            };
            match step {
                None => None,
                Some((src2, tgt2, m)) => {
                    let n = ws_end(s, m);
                    if n < s.len() && s[n] == ',' {
                        let p = ws_end(s, n + 1);
                        parse_sentence_members_x(s, p, fuel - 1, src2, tgt2, false)
                    } else if n < s.len() && s[n] == '}' {
                        finish_sentence_x(src2, tgt2, n + 1)
                    } else {
                        None
                    }
                },
            }
        },
    }
}

fn parse_paragraph_x(s: &Vec<char>, i: usize, fuel: u128) -> (r: Option<
    (Vec<YdTranslateResult>, usize),
>)
    requires
        i <= s@.len(),
    ensures
        m_para(r, parse_paragraph(s@, i as int, fuel as nat), s@.len() as nat),
    decreases fuel,
{
    if fuel == 0 || !(i < s.len() && s[i] == '[') {
        return None;
    }
    let j = ws_end(s, i + 1);
    if j < s.len() && s[j] == ']' {
        let empty: Vec<YdTranslateResult> = Vec::new();
        proof {
            assert(empty.deep_view() =~= Seq::<SentenceModel>::empty());
        }
        Some((empty, j + 1))
    } else {
        parse_paragraph_items_x(s, j, fuel - 1)
    }
}

fn parse_paragraph_items_x(s: &Vec<char>, i: usize, fuel: u128) -> (r: Option<
    (Vec<YdTranslateResult>, usize),
>)
    requires
        i <= s@.len(),
    ensures
        m_para(r, parse_paragraph_items(s@, i as int, fuel as nat), s@.len() as nat),
    decreases fuel,
{
    if fuel == 0 {
        return None;
    }
    match parse_sentence_x(s, i, fuel - 1) {
        None => None,
        Some((st, j)) => {
            let ghost stm = st.deep_view();
            let k = ws_end(s, j);
            if k < s.len() && s[k] == ',' {
                let n = ws_end(s, k + 1);
                match parse_paragraph_items_x(s, n, fuel - 1) {
                    None => None,
                    Some((mut rest, m)) => {
                        let ghost restm = rest.deep_view();
                        rest.insert(0, st);
                        proof {
                            assert(rest.deep_view() =~= Seq::<SentenceModel>::empty().push(stm)
                                + restm);
                        }
                        Some((rest, m))
                    },
                }
            } else if k < s.len() && s[k] == ']' {
                let mut one: Vec<YdTranslateResult> = Vec::new();
                one.push(st);
                proof {
                    assert(one.deep_view() =~= Seq::<SentenceModel>::empty().push(stm));
                }
                Some((one, k + 1))
            } else {
                None
            }
        },
    }
}

fn parse_paragraphs_x(s: &Vec<char>, i: usize, fuel: u128) -> (r: Option<
    (Vec<Vec<YdTranslateResult>>, usize),
>)
    requires
        i <= s@.len(),
    ensures
        m_paras(r, parse_paragraphs(s@, i as int, fuel as nat), s@.len() as nat),
    decreases fuel,
{
    if fuel == 0 || !(i < s.len() && s[i] == '[') {
        return None;
    }
    let j = ws_end(s, i + 1);
    if j < s.len() && s[j] == ']' {
        let empty: Vec<Vec<YdTranslateResult>> = Vec::new();
        proof {
            assert(empty.deep_view() =~= Seq::<Seq<SentenceModel>>::empty());
        }
        Some((empty, j + 1))
    } else {
        parse_paragraphs_items_x(s, j, fuel - 1)
    }
}

fn parse_paragraphs_items_x(s: &Vec<char>, i: usize, fuel: u128) -> (r: Option<
    (Vec<Vec<YdTranslateResult>>, usize),
>)
    requires
        i <= s@.len(),
    ensures
        m_paras(r, parse_paragraphs_items(s@, i as int, fuel as nat), s@.len() as nat),
    decreases fuel,
{
    if fuel == 0 {
        return None;
    }
    match parse_paragraph_x(s, i, fuel - 1) {
        None => None,
        Some((p, j)) => {
            let ghost pm = p.deep_view();
            let k = ws_end(s, j);
            if k < s.len() && s[k] == ',' {
                let n = ws_end(s, k + 1);
                match parse_paragraphs_items_x(s, n, fuel - 1) {
                    None => None,
                    Some((mut rest, m)) => {
                        let ghost restm = rest.deep_view();
                        rest.insert(0, p);
                        proof {
                            assert(rest.deep_view() =~= Seq::<Seq<SentenceModel>>::empty().push(
                                pm,
                            ) + restm);
                        }
                        Some((rest, m))
                    },
                }
            } else if k < s.len() && s[k] == ']' {
                let mut one: Vec<Vec<YdTranslateResult>> = Vec::new();
                one.push(p);
                proof {
                    assert(one.deep_view() =~= Seq::<Seq<SentenceModel>>::empty().push(pm));
                }
                Some((one, k + 1))
            } else {
                None
            }
        },
    }
}

fn parse_strings_x(s: &Vec<char>, i: usize, fuel: u128) -> (r: Option<(Vec<String>, usize)>)
    requires
        i <= s@.len(),
    ensures
        m_strs(r, parse_strings(s@, i as int, fuel as nat), s@.len() as nat),
    decreases fuel,
{
    if fuel == 0 || !(i < s.len() && s[i] == '[') {
        return None;
    }
    let j = ws_end(s, i + 1);
    if j < s.len() && s[j] == ']' {
        let empty: Vec<String> = Vec::new();
        proof {
            assert(empty.deep_view() =~= Seq::<Seq<char>>::empty());
        }
        Some((empty, j + 1))
    } else {
        parse_strings_items_x(s, j, fuel - 1)
    }
}

fn parse_strings_items_x(s: &Vec<char>, i: usize, fuel: u128) -> (r: Option<(Vec<String>, usize)>)
    requires
        i <= s@.len(),
    ensures
        m_strs(r, parse_strings_items(s@, i as int, fuel as nat), s@.len() as nat),
    decreases fuel,
{
    if fuel == 0 {
        return None;
    }
    match parse_string_x(s, i) {
        None => None,
        Some((t, j)) => {
            let ghost tm = t@;
            let k = ws_end(s, j);
            if k < s.len() && s[k] == ',' {
                let n = ws_end(s, k + 1);
                match parse_strings_items_x(s, n, fuel - 1) {
                    None => None,
                    Some((mut rest, m)) => {
                        let ghost restm = rest.deep_view();
                        rest.insert(0, t);
                        proof {
                            assert(rest.deep_view() =~= Seq::<Seq<char>>::empty().push(tm)
                                + restm);
                        }
                        Some((rest, m))
                    },
                }
            } else if k < s.len() && s[k] == ']' {
                let mut one: Vec<String> = Vec::new();
                one.push(t);
                proof {
                    assert(one.deep_view() =~= Seq::<Seq<char>>::empty().push(tm));
                }
                Some((one, k + 1))
            } else {
                None
            }
        },
    }
}

fn finish_smart_x(entries: Option<Vec<String>>, typ: Option<i32>, j: usize) -> (r: Option<
    (YdSmartResult, usize),
>)
    ensures
        match (r, finish_smart(opt_strs_view(entries), opt_i32_view(typ), j as int)) {
            (Some(a), Some(b)) => a.0@ == b.0 && a.1 as int == b.1 && a.1 == j,
            (None, None) => true,
            _ => false,
        },
{
    match (entries, typ) {
        (Some(ev), Some(tv)) => Some((YdSmartResult { entries: ev, typ: tv }, j)),
        _ => None,
    }
}

fn parse_smart_x(s: &Vec<char>, i: usize, fuel: u128) -> (r: Option<(YdSmartResult, usize)>)
    requires
        i <= s@.len(),
    ensures
        m_smart(r, parse_smart(s@, i as int, fuel as nat), s@.len() as nat),
    decreases fuel,
{
    if fuel == 0 || !(i < s.len() && s[i] == '{') {
        return None;
    }
    let j = ws_end(s, i + 1);
    parse_smart_members_x(s, j, fuel - 1, None, None, true)
}

fn parse_smart_members_x(
    s: &Vec<char>,
    i: usize,
    fuel: u128,
    entries: Option<Vec<String>>,
    typ: Option<i32>,
    first: bool,
) -> (r: Option<(YdSmartResult, usize)>)
    requires
        i <= s@.len(),
    ensures
        m_smart(
            r,
            parse_smart_members(
                s@,
                i as int,
                fuel as nat,
                opt_strs_view(entries),
                opt_i32_view(typ),
                first,
            ),
            s@.len() as nat,
        ),
    decreases fuel,
{
    if fuel == 0 {
        return None;
    }
    if first && i < s.len() && s[i] == '}' {
        return finish_smart_x(entries, typ, i + 1);
    }
    match parse_string_x(s, i) {
        None => None,
        Some((key, j)) => {
            let k = ws_end(s, j);
            if !(k < s.len() && s[k] == ':') {
                return None;
            }
            let v = ws_end(s, k + 1);
            let step: Option<(Option<Vec<String>>, Option<i32>, usize)> = if str_eq(
                key.as_str(),
                "entries",
            ) {
                match parse_strings_x(s, v, fuel - 1) {
                    Some((ev, m)) => Some((Some(ev), typ, m)),
                    None => None,
                }
            } else if str_eq(key.as_str(), "type") {
                match parse_i32_x(s, v) {
                    Some((n, m)) => Some((entries, Some(n), m)),
                    None => None,
                }
            } else {
                match skip_value_x(s, v, fuel - 1) {
                    Some(m) => Some((entries, typ, m)),
                    None => None,
                }
            };
            match step {
                None => None,
                Some((entries2, typ2, m)) => {
                    let n = ws_end(s, m);
                    if n < s.len() && s[n] == ',' {
                        let p = ws_end(s, n + 1);
                        parse_smart_members_x(s, p, fuel - 1, entries2, typ2, false)
                    } else if n < s.len() && s[n] == '}' {
                        finish_smart_x(entries2, typ2, n + 1)
                    } else {
                        None
                    }
                },
            }
        },
    }
}

fn finish_top_x(
    ec: Option<i32>,
    tr: Option<Option<Vec<Vec<YdTranslateResult>>>>,
    sr: Option<Option<YdSmartResult>>,
    j: usize,
) -> (r: Option<(YdResponse, usize)>)
    ensures
        match (r, finish_top(opt_i32_view(ec), opt_tr_view(tr), opt_sr_view(sr), j as int)) {
            (Some(a), Some(b)) => a.0@ == b.0 && a.1 as int == b.1 && a.1 == j,
            (None, None) => true,
            _ => false,
        },
{
    match ec {
        Some(n) => {
            let translate_result = match tr {
                Some(x) => x,
                None => None,
            };
            let smart_result = match sr {
                Some(x) => x,
                None => None,
            };
            Some((YdResponse { error_code: n, translate_result, smart_result }, j))
        },
        None => None,
    }
}

pub(crate) fn parse_top_x(s: &Vec<char>, i: usize, fuel: u128) -> (r: Option<(YdResponse, usize)>)
    requires
        i <= s@.len(),
    ensures
        m_top(r, parse_top(s@, i as int, fuel as nat), s@.len() as nat),
    decreases fuel,
{
    if fuel == 0 || !(i < s.len() && s[i] == '{') {
        return None;
    }
    let j = ws_end(s, i + 1);
    parse_top_members_x(s, j, fuel - 1, None, None, None, true)
}

fn parse_top_members_x(
    s: &Vec<char>,
    i: usize,
    fuel: u128,
    ec: Option<i32>,
    tr: Option<Option<Vec<Vec<YdTranslateResult>>>>,
    sr: Option<Option<YdSmartResult>>,
    first: bool,
) -> (r: Option<(YdResponse, usize)>)
    requires
        i <= s@.len(),
    ensures
        m_top(
            r,
            parse_top_members(
                s@,
                i as int,
                fuel as nat,
                opt_i32_view(ec),
                opt_tr_view(tr),
                opt_sr_view(sr),
                first,
            ),
            s@.len() as nat,
        ),
    decreases fuel,
{
    if fuel == 0 {
        return None;
    }
    if first && i < s.len() && s[i] == '}' {
        return finish_top_x(ec, tr, sr, i + 1);
    }
    match parse_string_x(s, i) {
        None => None,
        Some((key, j)) => {
            let k = ws_end(s, j);
            if !(k < s.len() && s[k] == ':') {
                return None;
            }
            let v = ws_end(s, k + 1);
            let step: Option<
                (
                    Option<i32>,
                    Option<Option<Vec<Vec<YdTranslateResult>>>>,
                    Option<Option<YdSmartResult>>,
                    usize,
                ),
            > = if str_eq(key.as_str(), "errorCode") {
                match parse_i32_x(s, v) {
                    Some((n, m)) => Some((Some(n), tr, sr, m)),
                    None => None,
                }
            } else if str_eq(key.as_str(), "translateResult") {
                if is_null_x(s, v) {
                    Some((ec, Some(None), sr, v + 4))
                } else {
                    match parse_paragraphs_x(s, v, fuel - 1) {
                        Some((ps, m)) => Some((ec, Some(Some(ps)), sr, m)),
                        None => None,
                    }
                }
            } else if str_eq(key.as_str(), "smartResult") {
                if is_null_x(s, v) {
                    Some((ec, tr, Some(None), v + 4))
                } else {
                    match parse_smart_x(s, v, fuel - 1) {
                        Some((sm, m)) => Some((ec, tr, Some(Some(sm)), m)),
                        None => None,
                    }
                }
            } else {
                match skip_value_x(s, v, fuel - 1) {
                    Some(m) => Some((ec, tr, sr, m)),
                    None => None,
                }
            };
            match step {
                None => None,
                Some((ec2, tr2, sr2, m)) => {
                    let n = ws_end(s, m);
                    if n < s.len() && s[n] == ',' {
                        let p = ws_end(s, n + 1);
                        parse_top_members_x(s, p, fuel - 1, ec2, tr2, sr2, false)
                    } else if n < s.len() && s[n] == '}' {
                        finish_top_x(ec2, tr2, sr2, n + 1)
                    } else {
                        None
                    }
                },
            }
        },
    }
}

/// Reads the characters of a string into a vector, in order.
pub fn str_to_chars(s: &str) -> (r: Vec<char>)
    ensures
        r@ == s@,
{
    let n = s.unicode_len();
    let mut v: Vec<char> = Vec::new();
    let mut i: usize = 0;
    while i < n
        invariant
            n == s@.len(),
            i <= n,
            v@ == s@.take(i as int),
        decreases n - i,
    {
        let c = s.get_char(i);
        v.push(c);
        i = i + 1;
        proof {
            assert(v@ =~= s@.take(i as int));
        }
    }
    proof {
        assert(s@.take(n as int) =~= s@);
    }
    v
}

/// Decodes a response body. Returns the decoded response exactly when the
/// body is of the accepted shape (`decode_spec`), and a decode error
/// otherwise.
pub fn decode_body(body: &str) -> (r: Result<YdResponse, crate::ydresponse::DecodeError>)
    ensures
        match r {
            Ok(v) => decode_spec(body@) == Some(v@),
            Err(_) => decode_spec(body@) is None,
        },
{
    let chars = str_to_chars(body);
    let n = chars.len();
    let fuel: u128 = 8 * (n as u128) + 32;
    let i = ws_end(&chars, 0);
    match parse_top_x(&chars, i, fuel) {
        None => Err(crate::ydresponse::DecodeError::Malformed),
        Some((m, j)) => {
            let k = ws_end(&chars, j);
            if k == chars.len() {
                Ok(m)
            } else {
                Err(crate::ydresponse::DecodeError::Malformed)
            }
        },
    }
}

// ---------------------------------------------------------------------------
// Canonical encoding of a response model back to JSON text.
// ---------------------------------------------------------------------------
/// The escape a character is written with inside a JSON string: quotes and
/// backslashes are escaped, everything else stands as itself.
pub open spec fn esc_seq(c: char) -> Seq<char> {
    if c == '"' {
        seq!['\\', '"']
    } else if c == '\\' {
        seq!['\\', '\\']
    } else {
        seq![c]
    }
}

pub open spec fn escape(t: Seq<char>) -> Seq<char>
    decreases t.len(),
{
    if t.len() == 0 {
        Seq::empty()
    } else {
        escape(t.drop_last()) + esc_seq(t.last())
    }
}

/// A JSON string literal: the escaped text between quotes.
pub open spec fn quoted(t: Seq<char>) -> Seq<char> {
    seq!['"'] + escape(t) + seq!['"']
}

pub open spec fn digit_char(d: int) -> char {
    ((48 + d) as u8) as char
}

/// The decimal digits of a non-negative value.
pub open spec fn digits_chars(v: int) -> Seq<char>
    decreases v,
{
    if v < 10 {
        seq![digit_char(v)]
    } else {
        digits_chars(v / 10).push(digit_char(v % 10))
    }
}

/// The decimal rendering of an integer.
pub open spec fn int_chars(n: int) -> Seq<char> {
    if n < 0 {
        seq!['-'] + digits_chars(-n)
    } else {
        digits_chars(n)
    }
}

pub open spec fn sent_chars(st: SentenceModel) -> Seq<char> {
    "{\"src\":"@ + quoted(st.source) + ",\"tgt\":"@ + quoted(st.target) + "}"@
}

pub open spec fn inner_sents(p: Seq<SentenceModel>) -> Seq<char>
    decreases p.len(),
{
    if p.len() == 0 {
        Seq::empty()
    } else if p.len() == 1 {
        sent_chars(p[0])
    } else {
        inner_sents(p.drop_last()) + ","@ + sent_chars(p.last())
    }
}

pub open spec fn para_chars(p: Seq<SentenceModel>) -> Seq<char> {
    "["@ + inner_sents(p) + "]"@
}

pub open spec fn inner_paras(ps: Seq<Seq<SentenceModel>>) -> Seq<char>
    decreases ps.len(),
{
    if ps.len() == 0 {
        Seq::empty()
    } else if ps.len() == 1 {
        para_chars(ps[0])
    } else {
        inner_paras(ps.drop_last()) + ","@ + para_chars(ps.last())
    }
}

pub open spec fn paras_chars(ps: Seq<Seq<SentenceModel>>) -> Seq<char> {
    "["@ + inner_paras(ps) + "]"@
}

pub open spec fn inner_strs(es: Seq<Seq<char>>) -> Seq<char>
    decreases es.len(),
{
    if es.len() == 0 {
        Seq::empty()
    } else if es.len() == 1 {
        quoted(es[0])
    } else {
        inner_strs(es.drop_last()) + ","@ + quoted(es.last())
    }
}

pub open spec fn smart_chars(sm: SmartModel) -> Seq<char> {
    "{\"entries\":["@ + inner_strs(sm.entries) + "],\"type\":"@ + int_chars(sm.typ) + "}"@
}

/// The canonical JSON text of a response model: the three fields in a fixed
/// order, absent sections written as `null`.
pub open spec fn encode_spec(m: ResponseModel) -> Seq<char> {
    "{\"errorCode\":"@ + int_chars(m.error_code) + ",\"translateResult\":"@ + (match m.translate {
        Some(ps) => paras_chars(ps),
        None => "null"@,
    }) + ",\"smartResult\":"@ + (match m.smart {
        Some(sm) => smart_chars(sm),
        None => "null"@,
    }) + "}"@
}

fn append_escaped(out: &mut String, t: &str)
    ensures
        final(out)@ == old(out)@ + escape(t@),
{
    let chars = str_to_chars(t);
    let ghost base = out@;
    let mut i: usize = 0;
    while i < chars.len()
        invariant
            i <= chars@.len(),
            chars@ == t@,
            out@ == base + escape(t@.take(i as int)),
        decreases chars@.len() - i,
    {
        let c = chars[i];
        if c == '"' {
            push_char(out, '\\');
            push_char(out, '"');
        } else if c == '\\' {
            push_char(out, '\\');
            push_char(out, '\\');
        } else {
            push_char(out, c);
        }
        i = i + 1;
        proof {
            assert(t@.take(i as int).drop_last() =~= t@.take(i as int - 1));
            assert(t@.take(i as int).last() == t@[i as int - 1]);
            assert(base + escape(t@.take(i as int - 1)) + esc_seq(t@[i as int - 1]) =~= base
                + escape(t@.take(i as int)));
        }
    }
    proof {
        assert(t@.take(t@.len() as int) =~= t@);
    }
}

fn append_quoted(out: &mut String, t: &str)
    ensures
        final(out)@ == old(out)@ + quoted(t@),
{
    push_char(out, '"');
    append_escaped(out, t);
    push_char(out, '"');
    proof {
        assert(old(out)@.push('"') + escape(t@) =~= old(out)@ + (seq!['"'] + escape(t@)));
        assert((old(out)@ + (seq!['"'] + escape(t@))).push('"') =~= old(out)@ + quoted(t@));
    }
}

fn append_digits(out: &mut String, v: u64)
    ensures
        final(out)@ == old(out)@ + digits_chars(v as int),
    decreases v,
{
    if v < 10 {
        push_char(out, (48 + v as u8) as char);
        proof {
            assert(old(out)@.push(digit_char(v as int)) =~= old(out)@ + digits_chars(v as int));
        }
    } else {
        append_digits(out, v / 10);
        push_char(out, (48 + (v % 10) as u8) as char);
        proof {
            assert((old(out)@ + digits_chars(v as int / 10)).push(digit_char(v as int % 10)) =~= old(
                out,
            )@ + digits_chars(v as int));
        }
    }
}

fn append_i32(out: &mut String, n: i32)
    ensures
        final(out)@ == old(out)@ + int_chars(n as int),
{
    let v: i64 = n as i64;
    if v < 0 {
        push_char(out, '-');
        let u: u64 = (-v) as u64;
        append_digits(out, u);
        proof {
            assert(old(out)@.push('-') + digits_chars(-(n as int)) =~= old(out)@ + int_chars(
                n as int,
            ));
        }
    } else {
        append_digits(out, v as u64);
    }
}

/// Encodes a response to its canonical JSON text.
pub fn encode_response(resp: &YdResponse) -> (r: String)
    ensures
        r@ == encode_spec(resp@),
{
    let mut out = String::from_str("{\"errorCode\":");
    append_i32(&mut out, resp.error_code);
    out.append(",\"translateResult\":");
    match &resp.translate_result {
        None => {
            out.append("null");
        },
        Some(trans) => {
            let ghost ps: Seq<Seq<SentenceModel>> = trans.deep_view();
            out.append("[");
            let ghost base = out@;
            let mut i: usize = 0;
            while i < trans.len()
                invariant
                    i <= trans@.len(),
                    ps == trans.deep_view(),
                    ps.len() == trans@.len(),
                    forall|q: int| 0 <= q < trans@.len() ==> ps[q] == trans@[q].deep_view(),
                    out@ == base + inner_paras(ps.take(i as int)),
                decreases trans@.len() - i,
            {
                if i > 0 {
                    out.append(",");
                }
                let para = &trans[i];
                let ghost pv: Seq<SentenceModel> = para.deep_view();
                out.append("[");
                let ghost pbase = out@;
                let mut j: usize = 0;
                while j < para.len()
                    invariant
                        j <= para@.len(),
                        pv == para.deep_view(),
                        pv.len() == para@.len(),
                        forall|q: int| 0 <= q < para@.len() ==> pv[q] == para@[q].deep_view(),
                        out@ == pbase + inner_sents(pv.take(j as int)),
                    decreases para@.len() - j,
                {
                    if j > 0 {
                        out.append(",");
                    }
                    out.append("{\"src\":");
                    append_quoted(&mut out, para[j].source.as_str());
                    out.append(",\"tgt\":");
                    append_quoted(&mut out, para[j].target.as_str());
                    out.append("}");
                    j = j + 1;
                    proof {
                        assert(pv.take(j as int).drop_last() =~= pv.take(j as int - 1));
                        assert(pv.take(j as int).last() == pv[j as int - 1]);
                        if j == 1 {
                            assert(pbase + inner_sents(pv.take(1)) =~= pbase + sent_chars(pv[0]));
                        }
                    }
                }
                out.append("]");
                i = i + 1;
                proof {
                    assert(pv.take(para@.len() as int) =~= pv);
                    assert(ps.take(i as int).drop_last() =~= ps.take(i as int - 1));
                    assert(ps.take(i as int).last() == ps[i as int - 1]);
                    if i == 1 {
                        assert(base + inner_paras(ps.take(1)) =~= base + para_chars(ps[0]));
                    }
                }
            }
            out.append("]");
            proof {
                assert(ps.take(trans@.len() as int) =~= ps);
            }
        },
    }
    out.append(",\"smartResult\":");
    match &resp.smart_result {
        None => {
            out.append("null");
        },
        Some(sm) => {
            out.append("{\"entries\":[");
            let ghost es: Seq<Seq<char>> = sm.entries.deep_view();
            let ghost sbase = out@;
            let mut k: usize = 0;
            while k < sm.entries.len()
                invariant
                    k <= sm.entries@.len(),
                    es == sm.entries.deep_view(),
                    es.len() == sm.entries@.len(),
                    forall|q: int| 0 <= q < sm.entries@.len() ==> es[q] == sm.entries@[q]@,
                    out@ == sbase + inner_strs(es.take(k as int)),
                decreases sm.entries@.len() - k,
            {
                if k > 0 {
                    out.append(",");
                }
                append_quoted(&mut out, sm.entries[k].as_str());
                k = k + 1;
                proof {
                    assert(es.take(k as int).drop_last() =~= es.take(k as int - 1));
                    assert(es.take(k as int).last() == es[k as int - 1]);
                    if k == 1 {
                        assert(sbase + inner_strs(es.take(1)) =~= sbase + quoted(es[0]));
                    }
                }
            }
            out.append("],\"type\":");
            append_i32(&mut out, sm.typ);
            out.append("}");
            proof {
                assert(es.take(sm.entries@.len() as int) =~= es);
            }
        },
    }
    out.append("}");
    proof {
        assert(out@ =~= encode_spec(resp@));
    }
    out
}

/// Law: one body decodes to one model. Decoding the same valid body twice
/// yields structurally equal results.
pub proof fn lemma_decode_deterministic(s: Seq<char>, m1: ResponseModel, m2: ResponseModel)
    requires
        decode_spec(s) == Some(m1),
        decode_spec(s) == Some(m2),
    ensures
        m1 == m2,
{
}

} // verus!
