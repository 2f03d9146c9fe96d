use vstd::prelude::*;

use crate::foss_db::{app_names, catalog_app_names_spec, catalog_keys_spec, FossApp};
use crate::matcher::{find_alternatives, resolve_keys_idx};
use crate::registry::InstalledSoftware;

verus! {

// The boundary operation that joins the scanner's output with the
// matcher: each installed-software record is paired with its resolved
// alternatives, if any.

/// One installed-software record together with its catalog matches.
pub struct SoftwareWithAlternatives {
    pub software: InstalledSoftware,
    pub has_alternatives: bool,
    pub alternatives: Vec<FossApp>,
}

/// Pairs every record with the alternatives its name resolves to: an
/// unresolved name gets an empty list, and `has_alternatives` reports
/// whether the list is non-empty.
#[verifier::loop_isolation(false)]
pub fn get_installed_software(software_list: Vec<InstalledSoftware>) -> (r: Vec<
    SoftwareWithAlternatives,
>)
    ensures
        r@.len() == software_list@.len(),
        forall|i: int|
            0 <= i < r@.len() ==> (#[trigger] r@[i]).software == software_list@[i],
        forall|i: int|
            0 <= i < r@.len() ==> (#[trigger] r@[i]).has_alternatives == (r@[i].alternatives@.len()
                > 0),
        forall|i: int|
            0 <= i < r@.len() ==> (match resolve_keys_idx(
                catalog_keys_spec(),
                software_list@[i].name@,
            ) {
                Some(k) => app_names((#[trigger] r@[i]).alternatives@)
                    == catalog_app_names_spec(k),
                None => r@[i].alternatives@.len() == 0,
            }),
{
    let mut r: Vec<SoftwareWithAlternatives> = Vec::new();
    let mut i: usize = 0;
    let n = software_list.len();
    while i < n
        invariant
            i <= n,
            r@.len() == i,
            forall|k: int|
                0 <= k < i ==> (#[trigger] r@[k]).software == software_list@[k],
            forall|k: int|
                0 <= k < i ==> (#[trigger] r@[k]).has_alternatives == (r@[k].alternatives@.len()
                    > 0),
            forall|k: int|
                0 <= k < i ==> (match resolve_keys_idx(
                    catalog_keys_spec(),
                    software_list@[k].name@,
                ) {
                    Some(m) => app_names((#[trigger] r@[k]).alternatives@)
                        == catalog_app_names_spec(m),
                    None => r@[k].alternatives@.len() == 0,
                }),
        decreases n - i,
    {
        let software = software_list[i].clone();
        let alternatives = match find_alternatives(software.name.as_str()) {
            Some(apps) => apps,
            None => Vec::new(),
        };
        let has_alternatives = alternatives.len() > 0;
        proof {
            match resolve_keys_idx(catalog_keys_spec(), software_list@[i as int].name@) {
                Some(m) => {
                    assert(app_names(alternatives@) == catalog_app_names_spec(m));
                },
                None => {
                    assert(alternatives@.len() == 0);
                },
            }
        }
        r.push(SoftwareWithAlternatives { software, has_alternatives, alternatives });
        i += 1;
    }
    r
}

} // verus!
