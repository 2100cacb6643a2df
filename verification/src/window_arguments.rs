//! The arguments given on the command line to open a window.

use vstd::prelude::*;
use crate::coords::{Coords, CoordsError, coords_spec};
use crate::monitor::MonitorIdentifier;
use crate::names::{AttrName, NameMap, VarName, lemma_names_are_keys};
use crate::text::{int_decimal, parse_i32_spec};
use crate::state::scope_graph::refs_contain;

verus! {

/// An argument that a window's definition expects.
#[derive(Debug)]
pub struct ExpectedArg {
    pub name: AttrName,
    pub optional: bool,
}

/// Why the arguments of a window are not right.
#[derive(Debug)]
pub enum WindowArgsError {
    /// The value of the argument `name` (`pos` or `size`) is no pair of
    /// coordinates.
    InvalidCoords { name: String, error: CoordsError },
    /// An argument that the window needs was not given.
    MissingArgument { name: AttrName, instance_id: String },
    /// Arguments were given that the window does not expect.
    UnexpectedVariables { names: Vec<VarName>, instance_id: String },
}

/// This stores the arguments given in the command line to create a window.
/// The anchor and the duration are read by the caller, from the texts that
/// [`WindowArguments::new_from_args`] hands back.
#[derive(Debug)]
pub struct WindowArguments {
    /// Name of the window as defined in the eww config
    pub window_name: String,
    /// Instance ID of the window
    pub instance_id: String,
    pub args: NameMap<String>,
    pub monitor: Option<MonitorIdentifier>,
    pub pos: Option<Coords>,
    pub size: Option<Coords>,
}

/// The text of a monitor identifier: the number in decimal, or the name.
pub open spec fn monitor_text(m: MonitorIdentifier) -> Seq<char> {
    match m {
        MonitorIdentifier::Numeric(n) => int_decimal(n as int),
        MonitorIdentifier::Name(s) => s@,
    }
}

/// The identifier that `t` denotes, as [`MonitorIdentifier::from_str`]
/// reads it.
pub open spec fn monitor_from(t: Seq<char>, m: MonitorIdentifier) -> bool {
    match parse_i32_spec(t) {
        Some(n) => m == MonitorIdentifier::Numeric(n),
        None => m matches MonitorIdentifier::Name(s) && s@ == t,
    }
}

/// The values of a map of strings, by their characters.
pub open spec fn values_view(m: Map<Seq<char>, String>) -> Map<Seq<char>, Seq<char>> {
    m.map_values(|v: String| v@)
}

/// Some argument of `expected` is named `name`.
pub open spec fn expects(expected: Seq<ExpectedArg>, name: Seq<char>) -> bool {
    exists|i: int| 0 <= i < expected.len() && (#[trigger] expected[i]).name@ == name
}

/// The argument `i` of `expected` is needed but has no value in `vars`.
pub open spec fn missing_at(expected: Seq<ExpectedArg>, vars: Map<Seq<char>, Seq<char>>, i: int) -> bool {
    !expected[i].optional && !vars.contains_key(expected[i].name@)
}

/// `name` is the first argument of `expected` that is needed but has no
/// value in `vars`.
pub open spec fn first_missing(expected: Seq<ExpectedArg>, vars: Map<Seq<char>, Seq<char>>, name: AttrName) -> bool {
    exists|i: int| 0 <= i < expected.len() && missing_at(expected, vars, i) && name == expected[i].name
        && forall|j: int| 0 <= j < i ==> !missing_at(expected, vars, j)
}

/// The names of `names` that `expected` does not expect, in order.
pub open spec fn unexpected(names: Seq<Seq<char>>, expected: Seq<ExpectedArg>) -> Seq<Seq<char>>
    decreases names.len(),
{
    if names.len() == 0 {
        Seq::empty()
    } else if expects(expected, names.last()) {
        unexpected(names.drop_last(), expected)
    } else {
        unexpected(names.drop_last(), expected).push(names.last())
    }
}

proof fn lemma_unexpected(names: Seq<Seq<char>>, expected: Seq<ExpectedArg>)
    ensures
        forall|k: Seq<char>| #[trigger] unexpected(names, expected).contains(k) <==> names.contains(k) && !expects(expected, k),
    decreases names.len(),
{
    if names.len() > 0 {
        let init = names.drop_last();
        lemma_unexpected(init, expected);
        assert forall|k: Seq<char>| #[trigger] unexpected(names, expected).contains(k) <==> names.contains(k) && !expects(expected, k) by {
            let u = unexpected(names, expected);
            let u0 = unexpected(init, expected);
            if u.contains(k) {
                let p = choose|p: int| 0 <= p < u.len() && u[p] == k;
                if p < u0.len() {
                    assert(u0.contains(k));
                    let p0 = choose|p0: int| 0 <= p0 < init.len() && init[p0] == k;
                    assert(names[p0] == k);
                } else {
                    assert(names[names.len() - 1] == k);
                }
            }
            if names.contains(k) && !expects(expected, k) {
                let p = choose|p: int| 0 <= p < names.len() && names[p] == k;
                if p < names.len() - 1 {
                    assert(init[p] == k);
                    assert(u0.contains(k));
                    let p0 = choose|p0: int| 0 <= p0 < u0.len() && u0[p0] == k;
                    assert(u[p0] == k);
                } else {
                    assert(u[u.len() - 1] == k);
                }
            }
        }
    }
}

/// Whether some argument of `expected` is named `name`.
fn has_expected(expected: &Vec<ExpectedArg>, name: &VarName) -> (b: bool)
    ensures
        b == expects(expected@, name@),
{
    let mut i: usize = 0;
    while i < expected.len()
        invariant
            0 <= i <= expected@.len(),
            forall|j: int| 0 <= j < i ==> (#[trigger] expected@[j]).name@ != name@,
        decreases expected.len() - i,
    {
        if name.same(&expected[i].name.to_var_name()) {
            return true;
        }
        i = i + 1;
    }
    false
}

/// Removes the entry `name` of `args` and gives its value.
fn take_arg(args: &mut NameMap<String>, name: &str) -> (r: Option<String>)
    requires
        old(args).wf(),
    ensures
        final(args).wf(),
        final(args)@ == old(args)@.remove(name@),
        r == old(args)@.get(name@),
{
    let n = VarName::from_str_slice(name);
    args.remove(&n)
}

impl WindowArguments {
    /// The variables of the window, as the window's definition `expected`
    /// sees them before the check: `id` and `screen` when it expects them
    /// (`screen` only when a monitor was given), then the arguments, which
    /// win over those two.
    pub open spec fn local_variables(&self, expected: Seq<ExpectedArg>) -> Map<Seq<char>, Seq<char>> {
        let with_id = if expects(expected, "id"@) {
            Map::<Seq<char>, Seq<char>>::empty().insert("id"@, self.instance_id@)
        } else {
            Map::<Seq<char>, Seq<char>>::empty()
        };
        let with_screen = match self.monitor {
            Some(m) => if expects(expected, "screen"@) {
                with_id.insert("screen"@, monitor_text(m))
            } else {
                with_id
            },
            None => with_id,
        };
        with_screen.union_prefer_right(values_view(self.args@))
    }

    /// The local variables of a window are its arguments, with their values,
    /// and besides them only `id` (the instance id) when the definition
    /// expects it and `screen` when it expects it and a monitor was given:
    /// eww adds no variable that the definition does not ask for. So a window
    /// given no arguments whose definition expects none has no local
    /// variables.
    pub proof fn law_local_variables(&self, expected: Seq<ExpectedArg>)
        ensures
            forall|k: Seq<char>| #[trigger] self.local_variables(expected).contains_key(k) <==> (self.args@.contains_key(k)
                || (k == "id"@ && expects(expected, k)) || (k == "screen"@ && expects(expected, k) && self.monitor is Some)),
            forall|k: Seq<char>| #[trigger] self.args@.contains_key(k) ==> self.local_variables(expected)[k] == self.args@[k]@,
            expects(expected, "id"@) && !self.args@.contains_key("id"@) ==> self.local_variables(expected)["id"@]
                == self.instance_id@,
            forall|k: Seq<char>| #[trigger] self.local_variables(expected).contains_key(k) ==> self.args@.contains_key(k)
                || expects(expected, k),
            expected.len() == 0 ==> self.local_variables(expected) == values_view(self.args@),
    {
        reveal_strlit("id");
        reveal_strlit("screen");
        assert("id"@.len() == 2 && "screen"@.len() == 6);
        assert("id"@ != "screen"@);
        let vars = self.local_variables(expected);
        if expected.len() == 0 {
            assert(!expects(expected, "id"@));
            assert(!expects(expected, "screen"@));
            assert(vars =~= values_view(self.args@));
        }
    }

    /// Reads the window's arguments that eww interprets itself from `args`:
    /// `pos` and `size` as coordinates and `screen` as a monitor; `anchor`
    /// and `duration` are handed back as they are. These five are removed
    /// from the arguments.
    pub fn new_from_args(id: String, config_name: String, args: NameMap<String>) -> (r: Result<(WindowArguments, Option<String>, Option<String>), WindowArgsError>)
        requires
            args.wf(),
        ensures
            ({
                let pos = args@.get("pos"@);
                let size = args@.get("size"@);
                let pos_ok = pos matches Some(t) ==> coords_spec(t@) is Some;
                let size_ok = size matches Some(t) ==> coords_spec(t@) is Some;
                &&& r is Ok <==> pos_ok && size_ok
                &&& !pos_ok ==> (r matches Err(WindowArgsError::InvalidCoords { name, .. }) && name@ == "pos"@)
                &&& pos_ok && !size_ok ==> (r matches Err(WindowArgsError::InvalidCoords { name, .. }) && name@ == "size"@)
                &&& r matches Ok((w, anchor, duration)) ==> {
                    &&& w.window_name == config_name
                    &&& w.instance_id == id
                    &&& w.args.wf()
                    &&& w.args@ == args@.remove("pos"@).remove("size"@).remove("screen"@).remove("anchor"@).remove("duration"@)
                    &&& w.pos == match pos { Some(t) => coords_spec(t@), None => None }
                    &&& w.size == match size { Some(t) => coords_spec(t@), None => None }
                    &&& match args@.get("screen"@) {
                        Some(t) => w.monitor matches Some(m) && monitor_from(t@, m),
                        None => w.monitor is None,
                    }
                    &&& anchor == args@.get("anchor"@)
                    &&& duration == args@.get("duration"@)
                }
            }),
    {
        proof {
            reveal_strlit("pos");
            reveal_strlit("size");
            reveal_strlit("screen");
            reveal_strlit("anchor");
            reveal_strlit("duration");
            assert("pos"@.len() == 3 && "size"@.len() == 4 && "screen"@.len() == 6 && "anchor"@.len() == 6
                && "duration"@.len() == 8);
            assert("screen"@[0] != "anchor"@[0]);
        }
        let mut args = args;
        let pos = match take_arg(&mut args, "pos") {
            None => None,
            Some(t) => match Coords::from_str(t.as_str()) {
                Ok(c) => Some(c),
                Err(e) => {
                    return Err(WindowArgsError::InvalidCoords { name: "pos".to_owned(), error: e });
                },
            },
        };
        let size = match take_arg(&mut args, "size") {
            None => None,
            Some(t) => match Coords::from_str(t.as_str()) {
                Ok(c) => Some(c),
                Err(e) => {
                    return Err(WindowArgsError::InvalidCoords { name: "size".to_owned(), error: e });
                },
            },
        };
        let monitor = match take_arg(&mut args, "screen") {
            None => None,
            Some(t) => Some(MonitorIdentifier::from_str(t.as_str())),
        };
        let anchor = take_arg(&mut args, "anchor");
        let duration = take_arg(&mut args, "duration");
        Ok((WindowArguments { window_name: config_name, instance_id: id, args, monitor, pos, size }, anchor, duration))
    }

    /// Return a map of all arguments the window was passed and expected,
    /// returning an error in case required arguments are missing or
    /// unexpected arguments are passed. Optional arguments may be left out.
    pub fn get_local_window_variables(&self, expected: &Vec<ExpectedArg>) -> (r: Result<NameMap<String>, WindowArgsError>)
        requires
            self.args.wf(),
        ensures
            ({
                let vars = self.local_variables(expected@);
                let missing = exists|i: int| 0 <= i < expected@.len() && missing_at(expected@, vars, i);
                let stray = (exists|k: Seq<char>| #[trigger] vars.contains_key(k) && !expects(expected@, k));
                &&& missing ==> (r matches Err(WindowArgsError::MissingArgument { name, instance_id }) && instance_id == self.instance_id
                    && first_missing(expected@, vars, name))
                &&& !missing && stray ==> (r matches Err(WindowArgsError::UnexpectedVariables { names, instance_id })
                    && instance_id == self.instance_id
                    && forall|k: Seq<char>| #[trigger] refs_contain(names@, k) <==> vars.contains_key(k) && !expects(expected@, k))
                &&& !missing && !stray ==> (r matches Ok(local) && local.wf() && values_view(local@) == vars)
            }),
    {
        let ghost vars = self.local_variables(expected@);
        let mut local: NameMap<String> = NameMap::new();
        let id_name = VarName::from_str_slice("id");
        if has_expected(expected, &id_name) {
            local.insert(id_name, self.instance_id.clone());
        }
        let screen_name = VarName::from_str_slice("screen");
        match &self.monitor {
            Some(m) => {
                if has_expected(expected, &screen_name) {
                    local.insert(screen_name, m.to_display_string());
                }
            },
            None => {},
        }
        let ghost base = values_view(local@);
        proof {
            reveal_strlit("id");
            reveal_strlit("screen");
        }
        let mut t: usize = 0;
        while t < self.args.len()
            invariant
                self.args.wf(),
                local.wf(),
                0 <= t <= self.args.names().len(),
                forall|k: Seq<char>| #[trigger] local@.contains_key(k) <==> (base.contains_key(k)
                    || exists|q: int| 0 <= q < t && self.args.names()[q] == k),
                forall|k: Seq<char>| #[trigger] local@.contains_key(k) ==> local@[k]@ == if exists|q: int| 0 <= q < t && self.args.names()[q] == k {
                    self.args@[k]@
                } else {
                    base[k]
                },
            decreases self.args.names().len() - t,
        {
            let n = self.args.name_at(t);
            let v = self.args.value_at(t);
            let ghost before = local@;
            local.insert(n.copy(), v.clone());
            proof {
                let tt = t as int;
                assert(self.args.names()[tt] == n@);
                assert forall|k: Seq<char>| #[trigger] local@.contains_key(k) <==> (base.contains_key(k)
                    || exists|q: int| 0 <= q < tt + 1 && self.args.names()[q] == k) by {
                    if exists|q: int| 0 <= q < tt + 1 && self.args.names()[q] == k {
                        let q = choose|q: int| 0 <= q < tt + 1 && self.args.names()[q] == k;
                        if q < tt {
                            assert(before.contains_key(k));
                        }
                    }
                }
                assert forall|k: Seq<char>| #[trigger] local@.contains_key(k) implies local@[k]@ == if exists|q: int| 0 <= q < tt + 1
                    && self.args.names()[q] == k {
                    self.args@[k]@
                } else {
                    base[k]
                } by {
                    if k != n@ {
                        if exists|q: int| 0 <= q < tt + 1 && self.args.names()[q] == k {
                            let q = choose|q: int| 0 <= q < tt + 1 && self.args.names()[q] == k;
                            assert(q < tt);
                        }
                    }
                }
            }
            t = t + 1;
        }
        proof {
            lemma_names_are_keys(&self.args);
            assert forall|k: Seq<char>| (exists|q: int| 0 <= q < self.args.names().len() && self.args.names()[q] == k)
                <==> self.args@.contains_key(k) by {
                if self.args@.contains_key(k) {
                    assert(self.args.names().contains(k));
                }
            }
            assert(values_view(local@) =~= vars);
        }
        let mut i: usize = 0;
        while i < expected.len()
            invariant
                local.wf(),
                vars == self.local_variables(expected@),
                values_view(local@) == vars,
                0 <= i <= expected@.len(),
                forall|j: int| 0 <= j < i ==> !missing_at(expected@, vars, j),
            decreases expected.len() - i,
        {
            let attr = &expected[i];
            if !local.contains_key(&attr.name.to_var_name()) && !attr.optional {
                let name = attr.name.copy();
                proof {
                    let ii = i as int;
                    assert(missing_at(expected@, vars, ii));
                    assert(name == expected@[ii].name);
                }
                let res: Result<NameMap<String>, WindowArgsError> = Err(WindowArgsError::MissingArgument { name, instance_id: self.instance_id.clone() });
                assert(first_missing(expected@, vars, name));
                return res;
            }
            i = i + 1;
        }
        proof {
            lemma_names_are_keys(&local);
            assert(local@.dom() =~= vars.dom());
        }
        {
            let mut names: Vec<VarName> = Vec::new();
            let mut q: usize = 0;
            while q < local.len()
                invariant
                    local.wf(),
                    vars == self.local_variables(expected@),
                    values_view(local@) == vars,
                    0 <= q <= local.names().len(),
                    names@.map_values(|v: VarName| v@) == unexpected(local.names().take(q as int), expected@),
                decreases local.names().len() - q,
            {
                let n = local.name_at(q);
                let ghost before = names@;
                if !has_expected(expected, n) {
                    names.push(n.copy());
                }
                proof {
                    let qq = q as int;
                    assert(local.names().take(qq + 1).drop_last() =~= local.names().take(qq));
                    assert(local.names().take(qq + 1).last() == n@);
                    if !expects(expected@, n@) {
                        assert(names@.map_values(|v: VarName| v@) =~= before.map_values(|v: VarName| v@).push(n@));
                    }
                }
                q = q + 1;
            }
            proof {
                assert(local.names().take(local.names().len() as int) =~= local.names());
                lemma_unexpected(local.names(), expected@);
                assert forall|k: Seq<char>| #[trigger] refs_contain(names@, k) <==> vars.contains_key(k) && !expects(expected@, k) by {
                    let u = unexpected(local.names(), expected@);
                    assert(names@.map_values(|v: VarName| v@) == u);
                    if exists|p: int| 0 <= p < names@.len() && #[trigger] names@[p]@ == k {
                        let p = choose|p: int| 0 <= p < names@.len() && #[trigger] names@[p]@ == k;
                        assert(u[p] == k);
                        assert(u.contains(k));
                    }
                    if vars.contains_key(k) && !expects(expected@, k) {
                        assert(local@.contains_key(k));
                        assert(local.names().contains(k));
                        assert(u.contains(k));
                        let p = choose|p: int| 0 <= p < u.len() && u[p] == k;
                        assert(names@[p]@ == k);
                    }
                }
            }
            if names.len() > 0 {
                proof {
                    assert(refs_contain(names@, names@[0]@));
                }
                return Err(WindowArgsError::UnexpectedVariables { names, instance_id: self.instance_id.clone() });
            }
            proof {
                assert forall|k: Seq<char>| !(#[trigger] vars.contains_key(k) && !expects(expected@, k)) by {
                    if vars.contains_key(k) && !expects(expected@, k) {
                        assert(refs_contain(names@, k));
                    }
                }
            }
        }
        Ok(local)
    }
}

} // verus!
