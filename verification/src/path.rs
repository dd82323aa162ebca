//! Path parameters captured by the router. Routing itself is an outside
//! collaborator; the library only carries the captured name/value pairs.

use vstd::prelude::*;
use vstd::string::*;
use crate::headers::str_bytes;
use crate::shortcuts::{name_matches, named_idx, lemma_named_idx_props, lemma_named_idx_exact,
    key_name_matches, SingleText};

verus! {

/// Ordered map from path parameter name to captured value.
#[derive(Debug)]
pub struct PathParams {
    params: Vec<(String, String)>,
}

/// `insert` semantics: replace the value of an existing name, else
/// append a new entry.
pub open spec fn spec_param_insert(
    v: Seq<(Seq<char>, Seq<char>)>,
    name: Seq<char>,
    value: Seq<char>,
) -> Seq<(Seq<char>, Seq<char>)> {
    match named_idx(v, str_bytes(name), false) {
        Some(i) => v.update(i, (v[i].0, value)),
        None => v.push((name, value)),
    }
}

impl View for PathParams {
    type V = Seq<(Seq<char>, Seq<char>)>;

    closed spec fn view(&self) -> Seq<(Seq<char>, Seq<char>)> {
        Seq::new(self.params@.len(), |i: int| (self.params@[i].0@, self.params@[i].1@))
    }
}

impl PathParams {
    /// An empty parameter map.
    pub fn new() -> (r: PathParams)
        ensures
            r@ == Seq::<(Seq<char>, Seq<char>)>::empty(),
    {
        let r = PathParams { params: Vec::new() };
        proof {
            assert(r@ =~= Seq::<(Seq<char>, Seq<char>)>::empty());
        }
        r
    }

    /// Stores one captured parameter, replacing an existing name's value.
    pub fn insert(&mut self, key: &str, value: &str)
        ensures
            final(self)@ == spec_param_insert(old(self)@, key@, value@),
    {
        let nb = key.as_bytes();
        let n: usize = self.params.len();
        let mut i: usize = 0;
        while i < n
            invariant
                0 <= i <= n,
                n == self.params@.len(),
                self@.len() == n,
                *self == *old(self),
                nb@ == str_bytes(key@),
                forall|j: int| 0 <= j < i ==> !name_matches(self@[j].0, nb@, false),
            decreases n - i,
        {
            if key_name_matches(&self.params[i].0, nb, false) {
                assert(self@[i as int].0 == self.params@[i as int].0@);
                proof {
                    lemma_named_idx_exact(self@, nb@, false, 0, i as int);
                }
                let er = vstd::std_specs::vec::vec_index_mut(&mut self.params, i);
                er.1 = String::from_str(value);
                proof {
                    let target = spec_param_insert(old(self)@, key@, value@);
                    assert forall|j: int| 0 <= j < final(self)@.len() implies final(self)@[j]
                        == target[j] by {
                        if j != i as int {
                            assert(final(self).params@[j] == old(self).params@[j]);
                        }
                    }
                    assert(final(self)@ =~= target);
                }
                return ;
            }
            assert(self@[i as int].0 == self.params@[i as int].0@);
            i += 1;
        }
        proof {
            lemma_named_idx_props(self@, nb@, false, 0);
        }
        self.params.push((String::from_str(key), String::from_str(value)));
        proof {
            let target = spec_param_insert(old(self)@, key@, value@);
            assert forall|j: int| 0 <= j < final(self)@.len() implies final(self)@[j] == target[j]
            by {
                if j < old(self)@.len() {
                    assert(final(self).params@[j] == old(self).params@[j]);
                }
            }
            assert(final(self)@ =~= target);
        }
    }

    /// The stored pairs, for iteration or mutation by the caller.
    pub fn map(&mut self) -> (r: &mut Vec<(String, String)>)
        ensures
            r@.len() == old(self)@.len(),
            forall|i: int|
                0 <= i < r@.len() ==> (#[trigger] r@[i].0@, r@[i].1@) == old(self)@[i],
            final(self)@ == Seq::new(
                final(r)@.len(),
                |i: int| (final(r)@[i].0@, final(r)@[i].1@),
            ),
    {
        &mut self.params
    }

    /// Lookup of a captured value, name matched byte for byte.
    pub fn first_value(&self, name: &str) -> (r: Option<&String>)
        ensures
            r is Some <==> named_idx(self@, str_bytes(name@), false) is Some,
            r matches Some(s) ==> s@ == self@[named_idx(self@, str_bytes(name@), false)->Some_0].1,
    {
        let nb = name.as_bytes();
        let n: usize = self.params.len();
        let mut i: usize = 0;
        while i < n
            invariant
                0 <= i <= n,
                n == self.params@.len(),
                self@.len() == n,
                nb@ == str_bytes(name@),
                forall|j: int| 0 <= j < i ==> !name_matches(self@[j].0, nb@, false),
            decreases n - i,
        {
            if key_name_matches(&self.params[i].0, nb, false) {
                assert(self@[i as int].0 == self.params@[i as int].0@);
                proof {
                    lemma_named_idx_exact(self@, nb@, false, 0, i as int);
                }
                let v = &self.params[i].1;
                assert(v@ == self@[i as int].1);
                return Some(v);
            }
            assert(self@[i as int].0 == self.params@[i as int].0@);
            i += 1;
        }
        proof {
            lemma_named_idx_props(self@, nb@, false, 0);
        }
        None
    }
}

impl SingleText for PathParams {
    fn value(&self, name: &str) -> Option<&String> {
        self.first_value(name)
    }
}

} // verus!
