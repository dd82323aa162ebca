//! Request and response headers: an ordered multimap from header name to a
//! sequence of raw byte values, case-insensitive on lookup and
//! case-preserving on storage.

use vstd::prelude::*;
use vstd::string::*;
use crate::scan::{lower_bytes, eq_ignore_ascii, slice_eq, find_window, find_sub, trim_slice,
    trim_bytes, slice_starts_with, is_prefix_of};
use crate::textenc::{lossy_decoded, lossy_string};

verus! {

/// The spec view of one header entry: name bytes and value byte strings.
pub type HeaderEntry = (Seq<u8>, Seq<Seq<u8>>);

/// First index `>= i` whose entry's name equals `name` byte for byte.
pub open spec fn key_idx_from(v: Seq<HeaderEntry>, name: Seq<u8>, i: int) -> Option<int>
    decreases v.len() + 1 - i,
{
    if i < 0 || i >= v.len() {
        None
    } else if v[i].0 == name {
        Some(i)
    } else {
        key_idx_from(v, name, i + 1)
    }
}

/// First entry whose name equals `name` byte for byte.
pub open spec fn key_idx(v: Seq<HeaderEntry>, name: Seq<u8>) -> Option<int> {
    key_idx_from(v, name, 0)
}

pub proof fn lemma_key_idx_props(v: Seq<HeaderEntry>, name: Seq<u8>, i: int)
    requires
        0 <= i,
    ensures
        match key_idx_from(v, name, i) {
            Some(p) => i <= p < v.len() && v[p].0 == name && (forall|j: int|
                i <= j < p ==> v[j].0 != name),
            None => forall|j: int| i <= j < v.len() ==> v[j].0 != name,
        },
    decreases v.len() + 1 - i,
{
    if i < v.len() && v[i].0 != name {
        lemma_key_idx_props(v, name, i + 1);
    }
}

pub proof fn lemma_key_idx_exact(v: Seq<HeaderEntry>, name: Seq<u8>, i: int, p: int)
    requires
        0 <= i <= p < v.len(),
        v[p].0 == name,
        forall|j: int| i <= j < p ==> v[j].0 != name,
    ensures
        key_idx_from(v, name, i) == Some(p),
    decreases p - i,
{
    if i < p {
        lemma_key_idx_exact(v, name, i + 1, p);
    }
}

/// First index `>= i` whose entry's name equals `name` up to ASCII case.
pub open spec fn lookup_from(v: Seq<HeaderEntry>, name: Seq<u8>, i: int) -> Option<int>
    decreases v.len() + 1 - i,
{
    if i < 0 || i >= v.len() {
        None
    } else if lower_bytes(v[i].0) == lower_bytes(name) {
        Some(i)
    } else {
        lookup_from(v, name, i + 1)
    }
}

/// First entry whose name equals `name` up to ASCII case.
pub open spec fn header_lookup(v: Seq<HeaderEntry>, name: Seq<u8>) -> Option<int> {
    lookup_from(v, name, 0)
}

pub proof fn lemma_lookup_props(v: Seq<HeaderEntry>, name: Seq<u8>, i: int)
    requires
        0 <= i,
    ensures
        match lookup_from(v, name, i) {
            Some(p) => i <= p < v.len() && lower_bytes(v[p].0) == lower_bytes(name) && (forall|
                j: int,
            | i <= j < p ==> lower_bytes(v[j].0) != lower_bytes(name)),
            None => forall|j: int| i <= j < v.len() ==> lower_bytes(v[j].0) != lower_bytes(name),
        },
    decreases v.len() + 1 - i,
{
    if i < v.len() && lower_bytes(v[i].0) != lower_bytes(name) {
        lemma_lookup_props(v, name, i + 1);
    }
}

pub proof fn lemma_lookup_exact(v: Seq<HeaderEntry>, name: Seq<u8>, i: int, p: int)
    requires
        0 <= i <= p < v.len(),
        lower_bytes(v[p].0) == lower_bytes(name),
        forall|j: int| i <= j < p ==> lower_bytes(v[j].0) != lower_bytes(name),
    ensures
        lookup_from(v, name, i) == Some(p),
    decreases p - i,
{
    if i < p {
        lemma_lookup_exact(v, name, i + 1, p);
    }
}

/// The values of every entry matching `name` up to ASCII case, in order.
pub open spec fn matching_values(v: Seq<HeaderEntry>, name: Seq<u8>) -> Seq<Seq<u8>>
    decreases v.len(),
{
    if v.len() == 0 {
        Seq::empty()
    } else {
        matching_values(v.drop_last(), name) + (if lower_bytes(v.last().0) == lower_bytes(name) {
            v.last().1
        } else {
            Seq::empty()
        })
    }
}

/// Every entry holds at least one value.
pub open spec fn entries_wf(v: Seq<HeaderEntry>) -> bool {
    forall|i: int| 0 <= i < v.len() ==> #[trigger] v[i].1.len() > 0
}

/// `v` without every entry whose name matches `name` up to ASCII case,
/// order kept.
pub open spec fn ci_removed(v: Seq<HeaderEntry>, name: Seq<u8>) -> Seq<HeaderEntry>
    decreases v.len(),
{
    if v.len() == 0 {
        Seq::empty()
    } else {
        let prev = ci_removed(v.drop_last(), name);
        if lower_bytes(v.last().0) == lower_bytes(name) {
            prev
        } else {
            prev.push(v.last())
        }
    }
}

pub proof fn lemma_ci_removed_wf(v: Seq<HeaderEntry>, name: Seq<u8>)
    requires
        entries_wf(v),
    ensures
        entries_wf(ci_removed(v, name)),
    decreases v.len(),
{
    if v.len() > 0 {
        lemma_ci_removed_wf(v.drop_last(), name);
    }
}

/// `set` semantics: there is one name up to ASCII case, so every entry
/// matching it goes, and a fresh entry with the given spelling and the
/// single value comes last.
pub open spec fn spec_set(v: Seq<HeaderEntry>, name: Seq<u8>, value: Seq<u8>) -> Seq<HeaderEntry> {
    ci_removed(v, name).push((name, seq![value]))
}

/// `set_multiple` semantics: append to the values of the first entry
/// matching the name up to ASCII case (its stored spelling stays), else
/// append a new entry.
pub open spec fn spec_set_multiple(v: Seq<HeaderEntry>, name: Seq<u8>, value: Seq<u8>) -> Seq<
    HeaderEntry,
> {
    match header_lookup(v, name) {
        Some(i) => v.update(i, (v[i].0, v[i].1.push(value))),
        None => v.push((name, seq![value])),
    }
}

/// The spec view of a `Vec` of raw values.
pub open spec fn raw_values_view(v: Seq<Vec<u8>>) -> Seq<Seq<u8>> {
    Seq::new(v.len(), |j: int| v[j]@)
}

/// UTF-8 bytes of a character sequence.
pub open spec fn str_bytes(s: Seq<char>) -> Seq<u8> {
    vstd::utf8::encode_utf8(s)
}

/// Ordered multimap from header name to raw byte values.
#[derive(Debug)]
pub struct Headers {
    entries: Vec<(String, Vec<Vec<u8>>)>,
}

impl View for Headers {
    type V = Seq<HeaderEntry>;

    closed spec fn view(&self) -> Seq<HeaderEntry> {
        Seq::new(
            self.entries@.len(),
            |i: int| (str_bytes(self.entries@[i].0@), raw_values_view(self.entries@[i].1@)),
        )
    }
}

impl Headers {
    pub open spec fn wf(&self) -> bool {
        entries_wf(self@)
    }

    /// An empty header map.
    pub fn new() -> (r: Headers)
        ensures
            r@ == Seq::<HeaderEntry>::empty(),
            r.wf(),
    {
        let r = Headers { entries: Vec::new() };
        proof {
            assert(r@ =~= Seq::<HeaderEntry>::empty());
        }
        r
    }

    /// Case-insensitive lookup; first value of the first matching entry,
    /// decoded lossily.
    pub fn value(&self, name: &str) -> (r: Option<String>)
        requires
            self.wf(),
        ensures
            r is Some <==> header_lookup(self@, str_bytes(name@)) is Some,
            r is Some ==> r->Some_0@ == lossy_decoded(
                self@[header_lookup(self@, str_bytes(name@))->Some_0].1[0],
            ),
    {
        let nb = name.as_bytes();
        let n: usize = self.entries.len();
        let mut i: usize = 0;
        while i < n
            invariant
                0 <= i <= n,
                n == self.entries@.len(),
                self@.len() == n,
                self.wf(),
                nb@ == str_bytes(name@),
                forall|j: int| 0 <= j < i ==> lower_bytes(self@[j].0) != lower_bytes(nb@),
            decreases n - i,
        {
            let eb = self.entries[i].0.as_str().as_bytes();
            assert(eb@ == self@[i as int].0);
            if eq_ignore_ascii(eb, nb) {
                proof {
                    lemma_lookup_exact(self@, nb@, 0, i as int);
                }
                assert(self@[i as int].1.len() > 0);
                let vals = &self.entries[i].1;
                assert(raw_values_view(vals@) == self@[i as int].1);
                let first = vals[0].as_slice();
                assert(first@ == self@[i as int].1[0]);
                return Some(lossy_string(first));
            }
            i += 1;
        }
        proof {
            lemma_lookup_props(self@, nb@, 0);
        }
        None
    }

    /// Case-insensitive lookup; the values of every matching entry, in
    /// order, decoded lossily.
    pub fn multiple_values(&self, name: &str) -> (r: Vec<String>)
        requires
            self.wf(),
        ensures
            r@.len() == matching_values(self@, str_bytes(name@)).len(),
            forall|k: int|
                0 <= k < r@.len() ==> #[trigger] r@[k]@ == lossy_decoded(
                    matching_values(self@, str_bytes(name@))[k],
                ),
    {
        let nb = name.as_bytes();
        let n: usize = self.entries.len();
        let mut out: Vec<String> = Vec::new();
        let mut i: usize = 0;
        while i < n
            invariant
                0 <= i <= n,
                n == self.entries@.len(),
                self@.len() == n,
                self.wf(),
                nb@ == str_bytes(name@),
                out@.len() == matching_values(self@.take(i as int), nb@).len(),
                forall|k: int|
                    0 <= k < out@.len() ==> #[trigger] out@[k]@ == lossy_decoded(
                        matching_values(self@.take(i as int), nb@)[k],
                    ),
            decreases n - i,
        {
            let ghost prefix = matching_values(self@.take(i as int), nb@);
            proof {
                assert(self@.take(i + 1).drop_last() =~= self@.take(i as int));
                assert(self@.take(i + 1).last() == self@[i as int]);
            }
            let eb = self.entries[i].0.as_str().as_bytes();
            assert(eb@ == self@[i as int].0);
            if eq_ignore_ascii(eb, nb) {
                let vals = &self.entries[i].1;
                assert(raw_values_view(vals@) == self@[i as int].1);
                let m: usize = vals.len();
                let mut j: usize = 0;
                while j < m
                    invariant
                        0 <= j <= m,
                        m == vals@.len(),
                        raw_values_view(vals@) == self@[i as int].1,
                        self@[i as int].1.len() == m,
                        out@.len() == prefix.len() + j,
                        forall|k: int|
                            0 <= k < prefix.len() ==> #[trigger] out@[k]@ == lossy_decoded(
                                prefix[k],
                            ),
                        forall|k: int|
                            prefix.len() <= k < out@.len() ==> #[trigger] out@[k]@
                                == lossy_decoded(self@[i as int].1[k - prefix.len()]),
                    decreases m - j,
                {
                    let s = lossy_string(vals[j].as_slice());
                    assert(vals@[j as int]@ == self@[i as int].1[j as int]);
                    out.push(s);
                    j += 1;
                }
                proof {
                    let whole = matching_values(self@.take(i + 1), nb@);
                    assert(whole == prefix + self@[i as int].1);
                    assert forall|k: int| 0 <= k < out@.len() implies #[trigger] out@[k]@
                        == lossy_decoded(whole[k]) by {
                        if k < prefix.len() {
                            assert(whole[k] == prefix[k]);
                        } else {
                            assert(whole[k] == self@[i as int].1[k - prefix.len()]);
                        }
                    }
                }
            } else {
                proof {
                    assert(matching_values(self@.take(i + 1), nb@) =~= prefix);
                }
            }
            i += 1;
        }
        proof {
            assert(self@.take(n as int) =~= self@);
        }
        out
    }

    /// Replaces all values stored under `name`, matched up to ASCII
    /// case, with the single `value` under the spelling given here.
    pub fn set(&mut self, name: &str, value: &[u8])
        requires
            old(self).wf(),
        ensures
            final(self).wf(),
            final(self)@ == spec_set(old(self)@, str_bytes(name@), value@),
    {
        let ghost v0 = old(self)@;
        let nb = name.as_bytes();
        let mut old_entries: Vec<(String, Vec<Vec<u8>>)> = Vec::new();
        old_entries.append(&mut self.entries);
        let ghost oe0 = old_entries@;
        let n: usize = old_entries.len();
        let mut k: usize = 0;
        proof {
            assert(self@ =~= Seq::<HeaderEntry>::empty());
            assert(ci_removed(v0.take(0), nb@) =~= Seq::<HeaderEntry>::empty());
            assert forall|j: int| 0 <= j < oe0.len() implies (#[trigger] str_bytes(oe0[j].0@),
            raw_values_view(oe0[j].1@)) == v0[j] by {}
            assert(old_entries@ =~= oe0.skip(0));
        }
        while k < n
            invariant
                0 <= k <= n,
                n == oe0.len(),
                v0.len() == n,
                entries_wf(v0),
                nb@ == str_bytes(name@),
                old_entries@ == oe0.skip(k as int),
                forall|j: int|
                    0 <= j < oe0.len() ==> (#[trigger] str_bytes(oe0[j].0@), raw_values_view(
                        oe0[j].1@,
                    )) == v0[j],
                self@ == ci_removed(v0.take(k as int), nb@),
            decreases n - k,
        {
            proof {
                assert(v0.take(k + 1).drop_last() =~= v0.take(k as int));
                assert(v0.take(k + 1).last() == v0[k as int]);
                assert((str_bytes(oe0[k as int].0@), raw_values_view(oe0[k as int].1@)) == v0[
                    k as int]);
            }
            let entry = old_entries.remove(0);
            proof {
                assert(entry == oe0.skip(k as int)[0]);
                assert(oe0.skip(k as int)[0] == oe0[k as int]);
                assert(old_entries@ =~= oe0.skip(k + 1));
            }
            if !eq_ignore_ascii(entry.0.as_str().as_bytes(), nb) {
                self.entries.push(entry);
                proof {
                    assert(self@ =~= ci_removed(v0.take(k + 1), nb@));
                }
            } else {
                proof {
                    assert(self@ =~= ci_removed(v0.take(k + 1), nb@));
                }
            }
            k += 1;
        }
        proof {
            assert(v0.take(n as int) =~= v0);
        }
        let mut newvals: Vec<Vec<u8>> = Vec::new();
        newvals.push(vstd::slice::slice_to_vec(value));
        self.entries.push((String::from_str(name), newvals));
        proof {
            let target = spec_set(v0, str_bytes(name@), value@);
            assert forall|j: int| 0 <= j < final(self)@.len() implies final(self)@[j] == target[j]
            by {
                if j + 1 == final(self)@.len() {
                    assert(raw_values_view(final(self).entries@[j].1@) =~= seq![value@]);
                }
            }
            assert(final(self)@ =~= target);
            lemma_ci_removed_wf(v0, nb@);
            assert(entries_wf(final(self)@));
        }
    }

    /// Adds `value` to the values of the entry matching `name` up to
    /// ASCII case, keeping earlier values and the stored spelling, so
    /// repeated header lines are kept.
    pub fn set_multiple(&mut self, name: &str, value: &[u8])
        requires
            old(self).wf(),
        ensures
            final(self).wf(),
            final(self)@ == spec_set_multiple(old(self)@, str_bytes(name@), value@),
    {
        let nb = name.as_bytes();
        let n: usize = self.entries.len();
        let mut i: usize = 0;
        while i < n
            invariant
                0 <= i <= n,
                n == self.entries@.len(),
                self@.len() == n,
                self.wf(),
                *self == *old(self),
                nb@ == str_bytes(name@),
                forall|j: int| 0 <= j < i ==> lower_bytes(self@[j].0) != lower_bytes(nb@),
            decreases n - i,
        {
            let eb = self.entries[i].0.as_str().as_bytes();
            assert(eb@ == self@[i as int].0);
            if eq_ignore_ascii(eb, nb) {
                proof {
                    lemma_lookup_exact(self@, nb@, 0, i as int);
                }
                let er = vstd::std_specs::vec::vec_index_mut(&mut self.entries, i);
                er.1.push(vstd::slice::slice_to_vec(value));
                proof {
                    let target = spec_set_multiple(old(self)@, str_bytes(name@), value@);
                    assert(raw_values_view(er.1@) =~= old(self)@[i as int].1.push(value@));
                    assert forall|j: int| 0 <= j < final(self)@.len() implies final(self)@[j]
                        == target[j] by {
                        if j != i as int {
                            assert(final(self).entries@[j] == old(self).entries@[j]);
                        }
                    }
                    assert(final(self)@ =~= target);
                    assert(entries_wf(final(self)@));
                }
                return ;
            }
            i += 1;
        }
        proof {
            lemma_lookup_props(self@, nb@, 0);
        }
        let mut newvals: Vec<Vec<u8>> = Vec::new();
        newvals.push(vstd::slice::slice_to_vec(value));
        self.entries.push((String::from_str(name), newvals));
        proof {
            let target = spec_set_multiple(old(self)@, str_bytes(name@), value@);
            assert forall|j: int| 0 <= j < final(self)@.len() implies final(self)@[j] == target[j]
            by {
                if j < old(self)@.len() {
                    assert(final(self).entries@[j] == old(self).entries@[j]);
                } else {
                    assert(raw_values_view(final(self).entries@[j].1@) =~= seq![value@]);
                }
            }
            assert(final(self)@ =~= target);
            assert(entries_wf(final(self)@));
        }
    }

    /// Case-sensitive lookup of the raw values stored under `name`.
    pub fn get(&self, name: &str) -> (r: Option<&Vec<Vec<u8>>>)
        requires
            self.wf(),
        ensures
            r is Some <==> key_idx(self@, str_bytes(name@)) is Some,
            r matches Some(v) ==> raw_values_view(v@) == self@[key_idx(
                self@,
                str_bytes(name@),
            )->Some_0].1,
    {
        let nb = name.as_bytes();
        let n: usize = self.entries.len();
        let mut i: usize = 0;
        while i < n
            invariant
                0 <= i <= n,
                n == self.entries@.len(),
                self@.len() == n,
                self.wf(),
                nb@ == str_bytes(name@),
                forall|j: int| 0 <= j < i ==> self@[j].0 != nb@,
            decreases n - i,
        {
            let eb = self.entries[i].0.as_str().as_bytes();
            assert(eb@ == self@[i as int].0);
            if slice_eq(eb, nb) {
                proof {
                    lemma_key_idx_exact(self@, nb@, 0, i as int);
                }
                let vals = &self.entries[i].1;
                assert(raw_values_view(vals@) == self@[i as int].1);
                return Some(vals);
            }
            i += 1;
        }
        proof {
            lemma_key_idx_props(self@, nb@, 0);
        }
        None
    }

    /// The stored entries, names as typed and values raw, in insertion
    /// order.
    pub fn entries(&self) -> (r: &Vec<(String, Vec<Vec<u8>>)>)
        ensures
            r@.len() == self@.len(),
            forall|i: int|
                0 <= i < r@.len() ==> #[trigger] str_bytes(r@[i].0@) == self@[i].0
                    && raw_values_view(r@[i].1@) == self@[i].1,
    {
        &self.entries
    }
}

/// Header access behind a trait, so the map can be handed around as a
/// capability.
pub trait HeaderValue {
    /// Performs case-insensitive lookup and returns the first value.
    fn value(&self, name: &str) -> Option<String>;

    /// Performs case-insensitive lookup and returns every stored value.
    fn multiple_values(&self, name: &str) -> Vec<String>;

    /// Inserts a header, replacing all values stored under the name.
    fn set(&mut self, name: &str, value: &[u8]);

    /// Inserts a header, keeping values already stored under the name.
    fn set_multiple(&mut self, name: &str, value: &[u8]);
}

impl HeaderValue for Headers {
    fn value(&self, name: &str) -> Option<String> {
        if !headers_wf_runtime(self) {
            return None;
        }
        Headers::value(self, name)
    }

    fn multiple_values(&self, name: &str) -> Vec<String> {
        if !headers_wf_runtime(self) {
            return Vec::new();
        }
        Headers::multiple_values(self, name)
    }

    fn set(&mut self, name: &str, value: &[u8]) {
        if headers_wf_runtime(self) {
            Headers::set(self, name, value);
        }
    }

    fn set_multiple(&mut self, name: &str, value: &[u8]) {
        if headers_wf_runtime(self) {
            Headers::set_multiple(self, name, value);
        }
    }
}

/// Runtime check of the entry invariant, so the trait methods can stand
/// without a precondition.
fn headers_wf_runtime(h: &Headers) -> (r: bool)
    ensures
        r == h.wf(),
{
    let n: usize = h.entries.len();
    let mut i: usize = 0;
    while i < n
        invariant
            0 <= i <= n,
            n == h.entries@.len(),
            h@.len() == n,
            forall|j: int| 0 <= j < i ==> #[trigger] h@[j].1.len() > 0,
        decreases n - i,
    {
        if h.entries[i].1.len() == 0 {
            assert(h@[i as int].1.len() == 0);
            return false;
        }
        assert(h@[i as int].1.len() > 0);
        i += 1;
    }
    true
}

/// The boundary token of a `multipart/form-data` content type: the
/// parameter after the first `;`, which must begin `boundary=`.
pub open spec fn boundary_of(s: Seq<u8>) -> Option<Seq<u8>> {
    match find_sub(s, seq![59u8]) {
        None => None,
        Some(p) => {
            let rest = s.skip(p + 1);
            let param = match find_sub(rest, seq![59u8]) {
                None => rest,
                Some(q) => rest.take(q),
            };
            let t = trim_bytes(param);
            if is_prefix_of(str_bytes("boundary="@), t) {
                Some(t.skip(str_bytes("boundary="@).len() as int))
            } else {
                None
            }
        },
    }
}

#[derive(Debug)]
pub enum HeaderError {
    /// The content type carries no `boundary=` parameter.
    BoundaryMissing,
}

/// Extracts the multipart boundary token from a `Content-Type` value.
pub fn multipart_boundary(content_type: &String) -> (r: Result<String, HeaderError>)
    ensures
        r is Ok <==> boundary_of(str_bytes(content_type@)) is Some,
        r matches Ok(s) ==> s@ == lossy_decoded(boundary_of(str_bytes(content_type@))->Some_0),
{
    let bytes = content_type.as_str().as_bytes();
    let mut semi: Vec<u8> = Vec::new();
    semi.push(59u8);
    assert(semi@ =~= seq![59u8]);
    let p = match find_window(bytes, semi.as_slice()) {
        Some(p) => p,
        None => {
            return Err(HeaderError::BoundaryMissing);
        },
    };
    proof {
        crate::scan::lemma_find_from_props(bytes@, semi@, 0);
    }
    let blen: usize = bytes.len();
    let rest = &bytes[p + 1..blen];
    assert(rest@ == bytes@.skip(p + 1));
    let param_v: Vec<u8> = match find_window(rest, semi.as_slice()) {
        None => vstd::slice::slice_to_vec(rest),
        Some(q) => {
            proof {
                crate::scan::lemma_find_from_props(rest@, semi@, 0);
            }
            let pv = vstd::slice::slice_to_vec(&rest[0..q]);
            assert(pv@ == rest@.take(q as int));
            pv
        },
    };
    let t = trim_slice(param_v.as_slice());
    let marker = "boundary=";
    let mb = marker.as_bytes();
    assert(mb@ == str_bytes("boundary="@));
    if slice_starts_with(t.as_slice(), mb) {
        let tl: usize = t.len();
        let bl: usize = mb.len();
        let b = &t.as_slice()[bl..tl];
        assert(b@ == t@.skip(str_bytes("boundary="@).len() as int));
        Ok(lossy_string(b))
    } else {
        Err(HeaderError::BoundaryMissing)
    }
}

} // verus!
