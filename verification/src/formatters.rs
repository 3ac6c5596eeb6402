//! The formatting capability consumed by the renderer: four decorations,
//! each a pure transformation of the text. A plain passthrough and an
//! ANSI-colour implementation are provided.

use vstd::prelude::*;

verus! {

/// A four-method display capability. Each method decorates the given text;
/// what it returns is pinned by the matching spec function, so the renderer's
/// output is fully determined by the implementation's spec.
pub trait Formatter {
    spec fn red_spec(&self, s: Seq<char>) -> Seq<char>;

    spec fn cyan_spec(&self, s: Seq<char>) -> Seq<char>;

    spec fn yellow_spec(&self, s: Seq<char>) -> Seq<char>;

    spec fn underline_spec(&self, s: Seq<char>) -> Seq<char>;

    fn red(&self, s: &str) -> (r: String)
        ensures
            r@ == self.red_spec(s@),
    ;

    fn cyan(&self, s: &str) -> (r: String)
        ensures
            r@ == self.cyan_spec(s@),
    ;

    fn yellow(&self, s: &str) -> (r: String)
        ensures
            r@ == self.yellow_spec(s@),
    ;

    fn underline(&self, s: &str) -> (r: String)
        ensures
            r@ == self.underline_spec(s@),
    ;
}

/// Passthrough formatter: every decoration returns the text unchanged.
pub struct PlainFormatter;

impl Formatter for PlainFormatter {
    open spec fn red_spec(&self, s: Seq<char>) -> Seq<char> {
        s
    }

    open spec fn cyan_spec(&self, s: Seq<char>) -> Seq<char> {
        s
    }

    open spec fn yellow_spec(&self, s: Seq<char>) -> Seq<char> {
        s
    }

    open spec fn underline_spec(&self, s: Seq<char>) -> Seq<char> {
        s
    }

    fn red(&self, s: &str) -> (r: String) {
        String::from_str(s)
    }

    fn cyan(&self, s: &str) -> (r: String) {
        String::from_str(s)
    }

    fn yellow(&self, s: &str) -> (r: String) {
        String::from_str(s)
    }

    fn underline(&self, s: &str) -> (r: String) {
        String::from_str(s)
    }
}

/// Wraps the text in an ANSI escape, then resets.
pub open spec fn ansi_wrap(code: Seq<char>, s: Seq<char>) -> Seq<char> {
    code + s + "\u{1b}[0m"@
}

/// ANSI-colour formatter: wraps the text in the usual SGR escapes.
pub struct AnsiFormatter;

impl Formatter for AnsiFormatter {
    open spec fn red_spec(&self, s: Seq<char>) -> Seq<char> {
        ansi_wrap("\u{1b}[31m"@, s)
    }

    open spec fn cyan_spec(&self, s: Seq<char>) -> Seq<char> {
        ansi_wrap("\u{1b}[36m"@, s)
    }

    open spec fn yellow_spec(&self, s: Seq<char>) -> Seq<char> {
        ansi_wrap("\u{1b}[33m"@, s)
    }

    open spec fn underline_spec(&self, s: Seq<char>) -> Seq<char> {
        ansi_wrap("\u{1b}[4m"@, s)
    }

    fn red(&self, s: &str) -> (r: String) {
        ansi_wrapped("\u{1b}[31m", s)
    }

    fn cyan(&self, s: &str) -> (r: String) {
        ansi_wrapped("\u{1b}[36m", s)
    }

    fn yellow(&self, s: &str) -> (r: String) {
        ansi_wrapped("\u{1b}[33m", s)
    }

    fn underline(&self, s: &str) -> (r: String) {
        ansi_wrapped("\u{1b}[4m", s)
    }
}

fn ansi_wrapped(code: &str, s: &str) -> (r: String)
    ensures
        r@ == ansi_wrap(code@, s@),
{
    let mut out = String::from_str(code);
    out.append(s);
    out.append("\u{1b}[0m");
    out
}

} // verus!
