//! The record describing one discovered application. `path` is the
//! resolved target of a shortcut (or the literal URL of a web
//! shortcut), never the shortcut file itself. Records are immutable
//! once produced by a scan, and equality is over all four fields, so
//! two shortcuts to the same target with different display names are
//! distinct entries.

use vstd::prelude::*;
use crate::category::Category;

verus! {

/// The mathematical value of an [`AppInfo`].
#[verifier::ext_equal]
pub struct AppInfoV {
    pub name: Seq<char>,
    pub path: Seq<char>,
    pub category: Category,
    pub icon: Option<Seq<char>>,
}

#[derive(Debug)]
pub struct AppInfo {
    pub name: String,
    pub path: String,
    pub category: Category,
    pub icon: Option<String>,
}

impl View for AppInfo {
    type V = AppInfoV;

    open spec fn view(&self) -> AppInfoV {
        AppInfoV {
            name: self.name@,
            path: self.path@,
            category: self.category,
            icon: match self.icon {
                Some(s) => Some(s@),
                None => None,
            },
        }
    }
}

impl Clone for AppInfo {
    fn clone(&self) -> (r: Self)
        ensures
            r == *self,
    {
        AppInfo {
            name: self.name.clone(),
            path: self.path.clone(),
            category: self.category,
            icon: match &self.icon {
                Some(s) => Some(s.clone()),
                None => None,
            },
        }
    }
}

impl PartialEq for AppInfo {
    fn eq(&self, o: &AppInfo) -> (r: bool) {
        let icons_eq = match (&self.icon, &o.icon) {
            (Some(a), Some(b)) => *a == *b,
            (None, None) => true,
            _ => false,
        };
        let r = self.name == o.name && self.path == o.path && self.category == o.category
            && icons_eq;
        proof {
            if r {
                assert(self@ =~= o@);
            }
        }
        r
    }
}

impl Eq for AppInfo {

}

impl vstd::std_specs::cmp::PartialEqSpecImpl for AppInfo {
    open spec fn obeys_eq_spec() -> bool {
        true
    }

    open spec fn eq_spec(&self, o: &AppInfo) -> bool {
        self@ == o@
    }
}

} // verus!
