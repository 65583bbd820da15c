//! Where the agent's program and the Node runtime stand, in a form that a process
//! without a login shell can use too.

use vstd::prelude::*;
use vstd::string::*;

use crate::paths;
use crate::paths::parent_of;
use crate::text;
use crate::text::has_text;

verus! {

/// A path at which a program was looked for, in the order of the search path.
#[derive(Debug, Clone)]
pub struct Place {
    pub path: String,
    /// Whether a regular file is there.
    pub is_file: bool,
    /// The path with every link followed, where that could be done.
    pub canonical: Option<String>,
}

/// Where the agent's program stands.
#[derive(Debug, Clone)]
pub enum PiLocation {
    /// At a path that every process can use.
    Stable(String),
    /// At a path that lives as long as a shell; `stable` is where it leads.
    PerShellShim { shim: String, stable: String, manager: &'static str },
    NotFound,
}

/// Where the agent's program stands, over texts.
pub enum LocationView {
    Stable(Seq<char>),
    PerShellShim { shim: Seq<char>, stable: Seq<char>, manager: Seq<char> },
    NotFound,
}

impl View for PiLocation {
    type V = LocationView;

    open spec fn view(&self) -> LocationView {
        match *self {
            PiLocation::Stable(p) => LocationView::Stable(p@),
            PiLocation::PerShellShim { shim, stable, manager } => LocationView::PerShellShim {
                shim: shim@,
                stable: stable@,
                manager: manager@,
            },
            PiLocation::NotFound => LocationView::NotFound,
        }
    }
}

/// The path to use wherever no shell has run.
pub open spec fn stable_of(l: LocationView) -> Option<Seq<char>> {
    match l {
        LocationView::Stable(p) => Some(p),
        LocationView::PerShellShim { stable, .. } => Some(stable),
        LocationView::NotFound => None,
    }
}

impl PiLocation {
    /// The path to use wherever no shell has run; none only where nothing was found.
    pub fn stable_path(&self) -> (r: Option<&str>)
        ensures
            match r {
                Some(p) => stable_of(self@) == Some(p@),
                None => stable_of(self@) is None,
            },
    {
        match self {
            PiLocation::Stable(p) => Some(p.as_str()),
            PiLocation::PerShellShim { stable, .. } => Some(stable.as_str()),
            PiLocation::NotFound => None,
        }
    }

    /// Whether the path that the shell sees is of no use elsewhere.
    pub fn is_shim(&self) -> (b: bool)
        ensures
            b == (self@ is PerShellShim),
    {
        match self {
            PiLocation::PerShellShim { .. } => true,
            _ => false,
        }
    }
}

/// The version manager that made a path which lives as long as a shell.
pub open spec fn shim_manager(path: Seq<char>) -> Option<Seq<char>> {
    if text::contains(path, "/.local/state/fnm_multishells/"@) {
        Some("fnm"@)
    } else if text::contains(path, "/.nvm/versions/node/"@) {
        Some("nvm"@)
    } else {
        None
    }
}

fn shim_manager_of(path: &str) -> (r: Option<&'static str>)
    ensures
        match r {
            Some(m) => shim_manager(path@) == Some(m@),
            None => shim_manager(path@) is None,
        },
{
    if has_text(path, "/.local/state/fnm_multishells/") {
        Some("fnm")
    } else if has_text(path, "/.nvm/versions/node/") {
        Some("nvm")
    } else {
        None
    }
}

/// The first place, from index `from` on, at which a file is.
pub open spec fn first_place(ps: Seq<Place>, from: int) -> Option<Place>
    decreases ps.len() - from,
{
    if from < 0 || from >= ps.len() {
        None
    } else if ps[from].is_file {
        Some(ps[from])
    } else {
        first_place(ps, from + 1)
    }
}

/// Where a place leads: to its canonical path, or to itself where there is none.
pub open spec fn leads_to(p: Place) -> Seq<char> {
    match p.canonical {
        Some(c) => c@,
        None => p.path@,
    }
}

fn found_place(ps: &Vec<Place>) -> (r: Option<&Place>)
    ensures
        match r {
            Some(p) => first_place(ps@, 0) == Some(*p),
            None => first_place(ps@, 0) is None,
        },
{
    let mut i: usize = 0;
    while i < ps.len()
        invariant
            i <= ps@.len(),
            first_place(ps@, 0) == first_place(ps@, i as int),
        decreases ps@.len() - i,
    {
        if ps[i].is_file {
            return Some(&ps[i]);
        }
        i = i + 1;
    }
    None
}

fn leads_to_of(p: &Place) -> (r: String)
    ensures
        r@ == leads_to(*p),
{
    match &p.canonical {
        Some(c) => c.clone(),
        None => p.path.clone(),
    }
}

/// Where the agent's program stands, given the places of the search path.
pub open spec fn location_of(ps: Seq<Place>) -> LocationView {
    match first_place(ps, 0) {
        None => LocationView::NotFound,
        Some(p) => match shim_manager(p.path@) {
            Some(manager) => LocationView::PerShellShim {
                shim: p.path@,
                stable: leads_to(p),
                manager,
            },
            None => LocationView::Stable(leads_to(p)),
        },
    }
}

/// Where the agent's program stands: the first place at which a file is, with its
/// links followed.
pub fn locate_pi(places: &Vec<Place>) -> (r: PiLocation)
    ensures
        r@ == location_of(places@),
{
    match found_place(places) {
        None => PiLocation::NotFound,
        Some(p) => {
            let stable = leads_to_of(p);
            match shim_manager_of(p.path.as_str()) {
                Some(manager) => PiLocation::PerShellShim { shim: p.path.clone(), stable, manager },
                None => PiLocation::Stable(stable),
            }
        },
    }
}

/// The directory of the first `node` of the search path, with its links followed.
pub fn locate_node_bin_dir(places: &Vec<Place>) -> (r: Option<String>)
    ensures
        crate::json::text_view(r) == match first_place(places@, 0) {
            Some(p) => paths::parent(leads_to(p)),
            None => None,
        },
{
    match found_place(places) {
        Some(p) => {
            let node = leads_to_of(p);
            parent_of(node.as_str())
        },
        None => None,
    }
}

/// Wherever the program is found, there is a path to use, and where it is a shim, that
/// path is where the shim leads.
pub proof fn law_found_is_usable(ps: Seq<Place>)
    ensures
        stable_of(location_of(ps)) == match first_place(ps, 0) {
            Some(p) => Some(leads_to(p)),
            None => None,
        },
{
}

} // verus!
