//! Values of widget attributes that name one of a few choices. Case does not
//! matter: the value is lowercased first, as `str::to_lowercase` does it.

use vstd::prelude::*;
use crate::text::{push_str, str_eq, string_of};

verus! {

/// The lowercase form of `s`, as `str::to_lowercase` of std makes it.
pub uninterp spec fn lowercase(s: Seq<char>) -> Seq<char>;

/// `str::to_lowercase` of std: the lowercase form of a string slice.
#[verifier::external_body]
fn to_lowercase(s: &str) -> (r: String)
    ensures
        r@ == lowercase(s@),
{
    s.to_lowercase()
}

/// How a box or a range lays out its content.
#[derive(Debug, PartialEq, Eq, Structural, Clone, Copy)]
pub enum Orientation {
    Vertical,
    Horizontal,
}

/// How a revealer shows and hides its child.
#[derive(Debug, PartialEq, Eq, Structural, Clone, Copy)]
pub enum RevealerTransitionType {
    SlideRight,
    SlideLeft,
    SlideUp,
    SlideDown,
    Crossfade,
    /// No animation: the child appears and disappears at once.
    NoTransition,
}

/// Where a widget lies in the space it is given.
#[derive(Debug, PartialEq, Eq, Structural, Clone, Copy)]
pub enum Align {
    Fill,
    Baseline,
    Center,
    Start,
    End,
}

/// The message for a value `input` of the attribute kind `what` that is
/// none of the `possible` ones.
pub open spec fn choice_error(what: Seq<char>, input: Seq<char>, possible: Seq<char>) -> Seq<char> {
    "Couldn't parse "@ + what + ": '"@ + input + "'. Possible values are "@ + possible
}

/// The message for a value that is none of the possible ones.
fn choice_error_message(what: &str, input: &str, possible: &str) -> (r: String)
    ensures
        r@ == choice_error(what@, input@, possible@),
{
    let mut v: Vec<char> = Vec::new();
    push_str(&mut v, "Couldn't parse ");
    push_str(&mut v, what);
    push_str(&mut v, ": '");
    push_str(&mut v, input);
    push_str(&mut v, "'. Possible values are ");
    push_str(&mut v, possible);
    string_of(&v)
}

/// Reads an orientation: "vertical" or "v", "horizontal" or "h".
pub fn parse_orientation(o: &str) -> (r: Result<Orientation, String>)
    ensures
        ({
            let l = lowercase(o@);
            if l == "vertical"@ || l == "v"@ {
                r == Ok::<Orientation, String>(Orientation::Vertical)
            } else if l == "horizontal"@ || l == "h"@ {
                r == Ok::<Orientation, String>(Orientation::Horizontal)
            } else {
                r matches Err(m) && m@ == choice_error("orientation"@, l, "vertical v horizontal h "@)
            }
        }),
{
    let l = to_lowercase(o);
    let s = l.as_str();
    if str_eq(s, "vertical") || str_eq(s, "v") {
        Ok(Orientation::Vertical)
    } else if str_eq(s, "horizontal") || str_eq(s, "h") {
        Ok(Orientation::Horizontal)
    } else {
        Err(choice_error_message("orientation", s, "vertical v horizontal h "))
    }
}

/// Reads a transition: "slideright", "slideleft", "slideup", "slidedown",
/// "fade" or "crossfade", "none".
pub fn parse_transition(t: &str) -> (r: Result<RevealerTransitionType, String>)
    ensures
        ({
            let l = lowercase(t@);
            if l == "slideright"@ {
                r == Ok::<RevealerTransitionType, String>(RevealerTransitionType::SlideRight)
            } else if l == "slideleft"@ {
                r == Ok::<RevealerTransitionType, String>(RevealerTransitionType::SlideLeft)
            } else if l == "slideup"@ {
                r == Ok::<RevealerTransitionType, String>(RevealerTransitionType::SlideUp)
            } else if l == "slidedown"@ {
                r == Ok::<RevealerTransitionType, String>(RevealerTransitionType::SlideDown)
            } else if l == "fade"@ || l == "crossfade"@ {
                r == Ok::<RevealerTransitionType, String>(RevealerTransitionType::Crossfade)
            } else if l == "none"@ {
                r == Ok::<RevealerTransitionType, String>(RevealerTransitionType::NoTransition)
            } else {
                r matches Err(m) && m@ == choice_error(
                    "transition"@,
                    l,
                    "slideright slideleft slideup slidedown fade crossfade none "@,
                )
            }
        }),
{
    let l = to_lowercase(t);
    let s = l.as_str();
    if str_eq(s, "slideright") {
        Ok(RevealerTransitionType::SlideRight)
    } else if str_eq(s, "slideleft") {
        Ok(RevealerTransitionType::SlideLeft)
    } else if str_eq(s, "slideup") {
        Ok(RevealerTransitionType::SlideUp)
    } else if str_eq(s, "slidedown") {
        Ok(RevealerTransitionType::SlideDown)
    } else if str_eq(s, "fade") || str_eq(s, "crossfade") {
        Ok(RevealerTransitionType::Crossfade)
    } else if str_eq(s, "none") {
        Ok(RevealerTransitionType::NoTransition)
    } else {
        Err(choice_error_message("transition", s, "slideright slideleft slideup slidedown fade crossfade none "))
    }
}

/// Reads an alignment: "fill", "baseline", "center", "start", "end".
pub fn parse_align(o: &str) -> (r: Result<Align, String>)
    ensures
        ({
            let l = lowercase(o@);
            if l == "fill"@ {
                r == Ok::<Align, String>(Align::Fill)
            } else if l == "baseline"@ {
                r == Ok::<Align, String>(Align::Baseline)
            } else if l == "center"@ {
                r == Ok::<Align, String>(Align::Center)
            } else if l == "start"@ {
                r == Ok::<Align, String>(Align::Start)
            } else if l == "end"@ {
                r == Ok::<Align, String>(Align::End)
            } else {
                r matches Err(m) && m@ == choice_error("alignment"@, l, "fill baseline center start end "@)
            }
        }),
{
    let l = to_lowercase(o);
    let s = l.as_str();
    if str_eq(s, "fill") {
        Ok(Align::Fill)
    } else if str_eq(s, "baseline") {
        Ok(Align::Baseline)
    } else if str_eq(s, "center") {
        Ok(Align::Center)
    } else if str_eq(s, "start") {
        Ok(Align::Start)
    } else if str_eq(s, "end") {
        Ok(Align::End)
    } else {
        Err(choice_error_message("alignment", s, "fill baseline center start end "))
    }
}

} // verus!
