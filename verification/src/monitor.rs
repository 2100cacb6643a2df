//! How a window names the monitor it opens on.

use vstd::prelude::*;
use crate::text::{chars_of, i64_to_string, int_decimal, lemma_int_decimal_parses, parse_i32, parse_i32_spec};

verus! {

/// The type of the identifier used to select a monitor
#[derive(Debug, Clone, PartialEq, Eq)]
pub enum MonitorIdentifier {
    Numeric(i32),
    Name(String),
}

/// Whether a monitor that reports the model `model` has the model `name`.
pub open spec fn is_model(model: Option<String>, name: Seq<char>) -> bool {
    model matches Some(m) && m@ == name
}

/// Whether `i` is the monitor that the name `name` selects among monitors
/// of the models `models`: the first of that model, or -1 when there is
/// none.
pub open spec fn selected_by_name(models: Seq<Option<String>>, name: Seq<char>, i: int) -> bool {
    if i == -1 {
        forall|m: int| 0 <= m < models.len() ==> !is_model(#[trigger] models[m], name)
    } else {
        &&& 0 <= i < models.len()
        &&& is_model(models[i], name)
        &&& forall|m: int| 0 <= m < i ==> !is_model(#[trigger] models[m], name)
    }
}

impl MonitorIdentifier {
    // only needed because we only support numeric identifiers for wayland for now
    pub fn is_numeric(&self) -> (b: bool)
        ensures
            b == self is Numeric,
    {
        match self {
            MonitorIdentifier::Numeric(_) => true,
            _ => false,
        }
    }

    /// Reads an identifier: a number, as `str::parse::<i32>` reads it, or
    /// else a monitor name.
    pub fn from_str(s: &str) -> (r: Self)
        ensures
            match parse_i32_spec(s@) {
                Some(n) => r == MonitorIdentifier::Numeric(n),
                None => r matches MonitorIdentifier::Name(name) && name@ == s@,
            },
    {
        let chars = chars_of(s);
        match parse_i32(&chars) {
            Some(n) => MonitorIdentifier::Numeric(n),
            None => MonitorIdentifier::Name(s.to_owned()),
        }
    }

    /// The number of the monitor that the identifier selects, given the
    /// models of the display's monitors in their order (`None` where a
    /// monitor reports none): the number itself, or the first monitor whose
    /// model is the name, and -1, which no monitor has, when none is. On
    /// wayland a name selects nothing, as the outputs' names cannot be read
    /// there.
    pub fn get_monitor(&self, models: &Vec<Option<String>>, wayland: bool) -> (r: Option<i32>)
        requires
            models@.len() <= i32::MAX,
        ensures
            match self {
                MonitorIdentifier::Numeric(n) => r == Some(*n),
                MonitorIdentifier::Name(name) => if wayland {
                    r is None
                } else {
                    r matches Some(i) && selected_by_name(models@, name@, i as int)
                },
            },
    {
        match self {
            MonitorIdentifier::Numeric(n) => Some(*n),
            MonitorIdentifier::Name(name) => {
                if wayland {
                    return None;
                }
                let mut m: usize = 0;
                while m < models.len()
                    invariant
                        m <= models@.len() <= i32::MAX,
                        !wayland,
                        *self == MonitorIdentifier::Name(*name),
                        forall|k: int| 0 <= k < m ==> !is_model(#[trigger] models@[k], name@),
                    decreases models@.len() - m,
                {
                    if let Some(model) = &models[m] {
                        if crate::text::str_eq(model.as_str(), name.as_str()) {
                            assert(is_model(models@[m as int], name@));
                            return Some(m as i32);
                        }
                    }
                    m = m + 1;
                }
                Some(-1)
            },
        }
    }

    /// The identifier as text: the number in decimal, or the name.
    pub fn to_display_string(&self) -> (s: String)
        ensures
            match self {
                MonitorIdentifier::Numeric(n) => s@ == int_decimal(*n as int),
                MonitorIdentifier::Name(name) => s@ == name@,
            },
    {
        match self {
            MonitorIdentifier::Numeric(n) => i64_to_string(*n as i64),
            MonitorIdentifier::Name(name) => name.clone(),
        }
    }
}

/// Reading back the text of a numeric identifier gives the identifier:
/// [`MonitorIdentifier::from_str`] of what
/// [`MonitorIdentifier::to_display_string`] gives for `Numeric(n)` is
/// `Numeric(n)`.
pub proof fn law_numeric_identifier_reads_back(n: i32)
    ensures
        parse_i32_spec(int_decimal(n as int)) == Some(n),
{
    lemma_int_decimal_parses(n);
}

} // verus!
