//! Lookup over ordered name/value entries, shared by form data, files,
//! cookies and path parameters, and the `SingleText` convenience trait.

use vstd::prelude::*;
use crate::scan::{lower_bytes, eq_ignore_ascii, slice_eq};
use crate::headers::str_bytes;

verus! {

/// `key` spells `name`, exactly (`ci` false) or up to ASCII case (`ci`
/// true).
pub open spec fn name_matches(key: Seq<char>, name: Seq<u8>, ci: bool) -> bool {
    if ci {
        lower_bytes(str_bytes(key)) == lower_bytes(name)
    } else {
        str_bytes(key) == name
    }
}

/// First index `>= i` whose entry name matches.
pub open spec fn named_idx_from<T>(
    v: Seq<(Seq<char>, T)>,
    name: Seq<u8>,
    ci: bool,
    i: int,
) -> Option<int>
    decreases v.len() + 1 - i,
{
    if i < 0 || i >= v.len() {
        None
    } else if name_matches(v[i].0, name, ci) {
        Some(i)
    } else {
        named_idx_from(v, name, ci, i + 1)
    }
}

/// First entry whose name matches.
pub open spec fn named_idx<T>(v: Seq<(Seq<char>, T)>, name: Seq<u8>, ci: bool) -> Option<int> {
    named_idx_from(v, name, ci, 0)
}

pub proof fn lemma_named_idx_props<T>(v: Seq<(Seq<char>, T)>, name: Seq<u8>, ci: bool, i: int)
    requires
        0 <= i,
    ensures
        match named_idx_from(v, name, ci, i) {
            Some(p) => i <= p < v.len() && name_matches(v[p].0, name, ci) && (forall|j: int|
                i <= j < p ==> !name_matches(v[j].0, name, ci)),
            None => forall|j: int| i <= j < v.len() ==> !name_matches(v[j].0, name, ci),
        },
    decreases v.len() + 1 - i,
{
    if i < v.len() && !name_matches(v[i].0, name, ci) {
        lemma_named_idx_props(v, name, ci, i + 1);
    }
}

pub proof fn lemma_named_idx_exact<T>(
    v: Seq<(Seq<char>, T)>,
    name: Seq<u8>,
    ci: bool,
    i: int,
    p: int,
)
    requires
        0 <= i <= p < v.len(),
        name_matches(v[p].0, name, ci),
        forall|j: int| i <= j < p ==> !name_matches(v[j].0, name, ci),
    ensures
        named_idx_from(v, name, ci, i) == Some(p),
    decreases p - i,
{
    if i < p {
        lemma_named_idx_exact(v, name, ci, i + 1, p);
    }
}

/// Compares a stored key against a queried name.
pub fn key_name_matches(key: &String, nb: &[u8], ci: bool) -> (r: bool)
    ensures
        r == name_matches(key@, nb@, ci),
{
    let kb = key.as_str().as_bytes();
    if ci {
        eq_ignore_ascii(kb, nb)
    } else {
        slice_eq(kb, nb)
    }
}

/// Case-insensitive lookup of the first stored text value under a name.
pub trait SingleText {
    /// Performs case-insensitive lookup and returns the first value found.
    fn value(&self, name: &str) -> Option<&String>;
}

} // verus!
