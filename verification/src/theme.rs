use vstd::prelude::*;
use crate::text::chars_of;

verus! {

/// One theme as the menu shows it.
#[derive(Debug, Clone)]
pub struct ThemeData {
    /// Identifier the menu event carries; registry ids contain a hyphen.
    pub id: String,
    /// Display name.
    pub name: String,
    /// Grouping label.
    pub category: String,
}

/// The theme entries the menu lists under the automatic entry: the
/// caller's list when one was loaded, else the built-in fallback pair.
pub fn theme_menu_entries(themes: Option<Vec<ThemeData>>) -> (r: Vec<ThemeData>)
    ensures
        match themes {
            Some(list) => r@ == list@,
            None => {
                &&& r@.len() == 2
                &&& r@[0].id@ == "athas-light"@ && r@[0].name@ == "Athas Light"@
                &&& r@[1].id@ == "athas-dark"@ && r@[1].name@ == "Athas Dark"@
            },
        },
{
    match themes {
        Some(list) => list,
        None => {
            let mut r: Vec<ThemeData> = Vec::new();
            r.push(
                ThemeData {
                    id: String::from_str("athas-light"),
                    name: String::from_str("Athas Light"),
                    category: String::from_str("built-in"),
                },
            );
            r.push(
                ThemeData {
                    id: String::from_str("athas-dark"),
                    name: String::from_str("Athas Dark"),
                    category: String::from_str("built-in"),
                },
            );
            r
        },
    }
}

/// Whether a menu event id selects a theme: the automatic entry, or a
/// theme id from the registry, which always contains a hyphen.
pub fn is_theme_selection(id: &str) -> (r: bool)
    ensures
        r == (id@ == "auto"@ || exists|i: int| 0 <= i < id@.len() && id@[i] == '-'),
{
    let s = id.to_owned();
    let auto = String::from_str("auto");
    if s.eq(&auto) {
        return true;
    }
    let v = chars_of(id);
    let mut i: usize = 0;
    while i < v.len()
        invariant
            i <= v@.len(),
            v@ == id@,
            forall|j: int| 0 <= j < i ==> id@[j] != '-',
        decreases v@.len() - i,
    {
        if v[i] == '-' {
            return true;
        }
        i = i + 1;
    }
    false
}

} // verus!
