//! Which row a command is about: a number is an id, anything else a path.

use vstd::prelude::*;
use vstd::string::*;

use crate::config;
use crate::config::{expand_tilde, home_view};
use crate::number;
use crate::number::{integer_text, parse_integer};
use crate::paths;
use crate::paths::{equal_paths, is_absolute, join_path};

verus! {

/// How a row is looked up.
#[derive(Debug, Clone)]
pub enum Lookup {
    ById(i64),
    ByPath(String),
}

/// How a row is looked up, over texts and integers.
pub enum LookupView {
    ById(int),
    ByPath(Seq<char>),
}

impl View for Lookup {
    type V = LookupView;

    open spec fn view(&self) -> LookupView {
        match *self {
            Lookup::ById(id) => LookupView::ById(id as int),
            Lookup::ByPath(p) => LookupView::ByPath(p@),
        }
    }
}

/// A path as the database holds it: with the home directory put in and, where it is
/// relative, below the current directory.
pub open spec fn absolute_path(target: Seq<char>, home: Option<Seq<char>>, cwd: Seq<char>) -> Seq<
    char,
> {
    let p = config::tilde(target, home);
    if paths::absolute(p) {
        p
    } else {
        paths::join(cwd, p)
    }
}

/// How the row that `target` means is looked up.
pub open spec fn lookup_of(target: Seq<char>, home: Option<Seq<char>>, cwd: Seq<char>) -> LookupView {
    match number::integer_of(target) {
        Some(id) => if 0 < id <= i64::MAX {
            LookupView::ById(id)
        } else {
            LookupView::ByPath(absolute_path(target, home, cwd))
        },
        None => LookupView::ByPath(absolute_path(target, home, cwd)),
    }
}

/// How the row that `target` means is looked up: a positive integer is an id,
/// anything else a path.
pub fn resolve_target(target: &str, home: Option<&str>, cwd: &str) -> (r: Lookup)
    ensures
        r@ == lookup_of(target@, home_view(home), cwd@),
{
    if let Some(id) = parse_integer(target) {
        if id > 0 {
            return Lookup::ById(id);
        }
    }
    let p = expand_tilde(target, home);
    if is_absolute(p.as_str()) {
        Lookup::ByPath(p)
    } else {
        Lookup::ByPath(join_path(cwd, p.as_str()))
    }
}

/// The path to try where the first one is not tracked: the canonical one, where it
/// is another.
pub fn second_path(path: &str, canonical: Option<String>) -> (r: Option<String>)
    ensures
        match (canonical, r) {
            (Some(c), Some(p)) => p@ == c@ && !paths::same_path(c@, path@),
            (Some(c), None) => paths::same_path(c@, path@),
            (None, p) => p is None,
        },
{
    match canonical {
        Some(c) => if equal_paths(c.as_str(), path) {
            None
        } else {
            Some(c)
        },
        None => None,
    }
}

/// What is said where no row is found.
pub fn not_found(target: &str, lookup: &Lookup) -> (r: String)
    ensures
        r@ == match lookup@ {
            LookupView::ById(id) => "no file found with ID "@ + number::decimal(id)
                + ". Use `kb list` to see all tracked files."@,
            LookupView::ByPath(_) => "no file found for '"@ + target@
                + "'. Use `kb list` to see all tracked files, or provide a numeric ID."@,
        },
{
    match lookup {
        Lookup::ById(id) => {
            let mut s = String::from_str("no file found with ID ");
            s.append(integer_text(*id).as_str());
            s.append(". Use `kb list` to see all tracked files.");
            s
        },
        Lookup::ByPath(_) => {
            let mut s = String::from_str("no file found for '");
            s.append(target);
            s.append("'. Use `kb list` to see all tracked files, or provide a numeric ID.");
            s
        },
    }
}

/// The number of a row, written out, means that row.
pub proof fn law_id_means_itself(id: int, home: Option<Seq<char>>, cwd: Seq<char>)
    requires
        0 < id <= i64::MAX,
    ensures
        lookup_of(number::decimal(id), home, cwd) == LookupView::ById(id),
{
    number::law_decimal_round_trip(id);
}

} // verus!
