//! Small value helpers shared by the admin and statistics rules.

use vstd::prelude::*;

verus! {

/// A string argument that counts: present and not empty.
pub open spec fn non_empty_ref(o: Option<&str>) -> Option<Seq<char>> {
    match o {
        Some(s) => if s@.len() > 0 {
            Some(s@)
        } else {
            None
        },
        None => None,
    }
}

} // verus!
