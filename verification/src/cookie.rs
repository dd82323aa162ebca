//! Cookie parsing and `Set-Cookie` construction around the verified
//! header map.

use vstd::prelude::*;
use vstd::string::*;
use crate::headers::{Headers, str_bytes, spec_set_multiple, matching_values};
use crate::scan::{char_find, char_find_str, split_chars, split_chars_str, trim_bytes, trim_slice};
use crate::shortcuts::{name_matches, named_idx, lemma_named_idx_props, lemma_named_idx_exact,
    key_name_matches, SingleText};
use crate::textenc::{lossy_decoded, lossy_string, url_decoded, url_decode, url_encode_bytes,
    url_encode, chars_of_bytes};

verus! {

/// Ordered map from cookie name to value, name matched byte for byte on
/// insertion and case-insensitively on lookup.
#[derive(Debug)]
pub struct Cookies {
    entries: Vec<(String, String)>,
}

/// `insert` semantics: replace the value of an existing name, else
/// append a new entry.
pub open spec fn spec_cookie_insert(
    v: Seq<(Seq<char>, Seq<char>)>,
    name: Seq<char>,
    value: Seq<char>,
) -> Seq<(Seq<char>, Seq<char>)> {
    match named_idx(v, str_bytes(name), false) {
        Some(i) => v.update(i, (v[i].0, value)),
        None => v.push((name, value)),
    }
}

impl View for Cookies {
    type V = Seq<(Seq<char>, Seq<char>)>;

    closed spec fn view(&self) -> Seq<(Seq<char>, Seq<char>)> {
        Seq::new(self.entries@.len(), |i: int| (self.entries@[i].0@, self.entries@[i].1@))
    }
}

impl Cookies {
    /// An empty cookie map.
    pub fn new() -> (r: Cookies)
        ensures
            r@ == Seq::<(Seq<char>, Seq<char>)>::empty(),
    {
        let r = Cookies { entries: Vec::new() };
        proof {
            assert(r@ =~= Seq::<(Seq<char>, Seq<char>)>::empty());
        }
        r
    }

    /// Stores one cookie, replacing the value of an existing name.
    pub fn insert(&mut self, name: String, value: String)
        ensures
            final(self)@ == spec_cookie_insert(old(self)@, name@, value@),
    {
        let ghost nv = name@;
        let ghost vv = value@;
        let nb = name.as_str().as_bytes_vec();
        let n: usize = self.entries.len();
        let mut i: usize = 0;
        while i < n
            invariant
                0 <= i <= n,
                n == self.entries@.len(),
                self@.len() == n,
                *self == *old(self),
                nb@ == str_bytes(nv),
                nv == name@,
                vv == value@,
                forall|j: int| 0 <= j < i ==> !name_matches(self@[j].0, nb@, false),
            decreases n - i,
        {
            if key_name_matches(&self.entries[i].0, nb.as_slice(), false) {
                assert(self@[i as int].0 == self.entries@[i as int].0@);
                proof {
                    lemma_named_idx_exact(self@, nb@, false, 0, i as int);
                }
                let er = vstd::std_specs::vec::vec_index_mut(&mut self.entries, i);
                er.1 = value;
                proof {
                    let target = spec_cookie_insert(old(self)@, nv, vv);
                    assert forall|j: int| 0 <= j < final(self)@.len() implies final(self)@[j]
                        == target[j] by {
                        if j != i as int {
                            assert(final(self).entries@[j] == old(self).entries@[j]);
                        }
                    }
                    assert(final(self)@ =~= target);
                }
                return ;
            }
            assert(self@[i as int].0 == self.entries@[i as int].0@);
            i += 1;
        }
        proof {
            lemma_named_idx_props(self@, nb@, false, 0);
        }
        self.entries.push((name, value));
        proof {
            let target = spec_cookie_insert(old(self)@, nv, vv);
            assert forall|j: int| 0 <= j < final(self)@.len() implies final(self)@[j] == target[j]
            by {
                if j < old(self)@.len() {
                    assert(final(self).entries@[j] == old(self).entries@[j]);
                }
            }
            assert(final(self)@ =~= target);
        }
    }

    /// Case-insensitive lookup of a cookie value.
    pub fn first_value(&self, name: &str) -> (r: Option<&String>)
        ensures
            r is Some <==> named_idx(self@, str_bytes(name@), true) is Some,
            r matches Some(s) ==> s@ == self@[named_idx(self@, str_bytes(name@), true)->Some_0].1,
    {
        let nb = name.as_bytes();
        let n: usize = self.entries.len();
        let mut i: usize = 0;
        while i < n
            invariant
                0 <= i <= n,
                n == self.entries@.len(),
                self@.len() == n,
                nb@ == str_bytes(name@),
                forall|j: int| 0 <= j < i ==> !name_matches(self@[j].0, nb@, true),
            decreases n - i,
        {
            if key_name_matches(&self.entries[i].0, nb, true) {
                assert(self@[i as int].0 == self.entries@[i as int].0@);
                proof {
                    lemma_named_idx_exact(self@, nb@, true, 0, i as int);
                }
                let v = &self.entries[i].1;
                assert(v@ == self@[i as int].1);
                return Some(v);
            }
            assert(self@[i as int].0 == self.entries@[i as int].0@);
            i += 1;
        }
        proof {
            lemma_named_idx_props(self@, nb@, true, 0);
        }
        None
    }
}

impl SingleText for Cookies {
    fn value(&self, name: &str) -> Option<&String> {
        self.first_value(name)
    }
}

/// One `trim`med and percent-decoded side of a cookie pair; the raw text
/// is kept when decoding fails.
pub open spec fn cookie_text(x: Seq<char>) -> Seq<char> {
    let t = lossy_decoded(trim_bytes(str_bytes(x)));
    match url_decoded(t) {
        Some(d) => d,
        None => t,
    }
}

/// Folds the `;`-separated pairs of one `Cookie` header value into the
/// map: each segment splits at its first `=`, both sides trimmed and
/// percent-decoded, and segments without `=` are ignored.
pub open spec fn spec_cookie_pairs(
    v: Seq<(Seq<char>, Seq<char>)>,
    segs: Seq<Seq<char>>,
) -> Seq<(Seq<char>, Seq<char>)>
    decreases segs.len(),
{
    if segs.len() == 0 {
        v
    } else {
        let prev = spec_cookie_pairs(v, segs.drop_last());
        let seg = segs.last();
        match char_find(seg, '=') {
            None => prev,
            Some(p) => spec_cookie_insert(
                prev,
                cookie_text(seg.take(p)),
                cookie_text(seg.skip(p + 1)),
            ),
        }
    }
}

/// What one `Cookie` header value adds to the map.
pub open spec fn spec_parse_cookie_value(
    v: Seq<(Seq<char>, Seq<char>)>,
    s: Seq<char>,
) -> Seq<(Seq<char>, Seq<char>)> {
    spec_cookie_pairs(v, split_chars(s, ';'))
}

/// Trims and percent-decodes one side of a cookie pair.
fn cookie_text_exec(raw: &str) -> (r: String)
    ensures
        r@ == cookie_text(raw@),
{
    let tb = trim_slice(raw.as_bytes());
    let t = lossy_string(tb.as_slice());
    match url_decode(t.as_str()) {
        Some(d) => d,
        None => t,
    }
}

/// Adds the pairs of one `Cookie` header value (for example
/// `name=John; location=Ktm`) to the map.
pub fn parse_cookie_header_value(cookie_header_value: String, cookies: &mut Cookies)
    ensures
        final(cookies)@ == spec_parse_cookie_value(old(cookies)@, cookie_header_value@),
{
    let segs = split_chars_str(cookie_header_value.as_str(), ';');
    let ghost sv = split_chars(cookie_header_value@, ';');
    let n: usize = segs.len();
    let mut i: usize = 0;
    proof {
        assert(spec_cookie_pairs(old(cookies)@, sv.take(0)) =~= old(cookies)@);
    }
    while i < n
        invariant
            0 <= i <= n,
            n == segs@.len(),
            sv == split_chars(cookie_header_value@, ';'),
            segs@.len() == sv.len(),
            forall|j: int| 0 <= j < segs@.len() ==> #[trigger] segs@[j]@ == sv[j],
            cookies@ == spec_cookie_pairs(old(cookies)@, sv.take(i as int)),
        decreases n - i,
    {
        proof {
            assert(sv.take(i + 1).drop_last() =~= sv.take(i as int));
            assert(sv.take(i + 1).last() == sv[i as int]);
        }
        let seg = &segs[i];
        assert(seg@ == sv[i as int]);
        let slen: usize = seg.as_str().unicode_len();
        match char_find_str(seg.as_str(), '=') {
            None => {},
            Some(p) => {
                proof {
                    crate::scan::lemma_char_find_props(seg@, '=', 0);
                }
                let key_raw = seg.as_str().substring_char(0, p);
                let val_raw = seg.as_str().substring_char(p + 1, slen);
                assert(val_raw@ == seg@.skip(p + 1)) by {
                    assert(seg@.subrange(p + 1, seg@.len() as int) =~= seg@.skip(p + 1));
                }
                let key = cookie_text_exec(key_raw);
                let value = cookie_text_exec(val_raw);
                cookies.insert(key, value);
            },
        }
        i += 1;
    }
    proof {
        assert(sv.take(n as int) =~= sv);
    }
}

/// Folds every `Cookie` header value, in stored order.
pub open spec fn spec_cookies_of(texts: Seq<Seq<char>>) -> Seq<(Seq<char>, Seq<char>)>
    decreases texts.len(),
{
    if texts.len() == 0 {
        Seq::empty()
    } else {
        spec_parse_cookie_value(spec_cookies_of(texts.drop_last()), texts.last())
    }
}

/// Reads every `Cookie` header line into one cookie map.
pub fn parse_cookies_from_header(headers: &Headers) -> (r: Cookies)
    requires
        headers.wf(),
    ensures
        r@ == spec_cookies_of(
            Seq::new(
                matching_values(headers@, str_bytes("cookie"@)).len(),
                |k: int| lossy_decoded(matching_values(headers@, str_bytes("cookie"@))[k]),
            ),
        ),
{
    let cookie_headers = headers.multiple_values("cookie");
    let ghost texts = Seq::new(
        matching_values(headers@, str_bytes("cookie"@)).len(),
        |k: int| lossy_decoded(matching_values(headers@, str_bytes("cookie"@))[k]),
    );
    let mut cookies = Cookies::new();
    let n: usize = cookie_headers.len();
    let mut i: usize = 0;
    proof {
        assert(texts.take(0) =~= Seq::<Seq<char>>::empty());
        assert(spec_cookies_of(texts.take(0)) =~= Seq::<(Seq<char>, Seq<char>)>::empty());
    }
    while i < n
        invariant
            0 <= i <= n,
            n == cookie_headers@.len(),
            cookie_headers@.len() == texts.len(),
            forall|j: int| 0 <= j < cookie_headers@.len() ==> #[trigger] cookie_headers@[j]@
                == texts[j],
            cookies@ == spec_cookies_of(texts.take(i as int)),
        decreases n - i,
    {
        proof {
            assert(texts.take(i + 1).drop_last() =~= texts.take(i as int));
            assert(texts.take(i + 1).last() == texts[i as int]);
        }
        let value = cookie_headers[i].clone();
        assert(value@ == texts[i as int]);
        parse_cookie_header_value(value, &mut cookies);
        i += 1;
    }
    proof {
        assert(texts.take(n as int) =~= texts);
    }
    cookies
}

/// The longest accepted cookie age, in seconds (a thousand years): far
/// inside what the system clock and the calendar arithmetic behind
/// `cookie_expiry` can represent, so the addition and the conversion
/// below cannot overflow.
pub const MAX_COOKIE_AGE_SECS: u64 = 1000 * 366 * 24 * 60 * 60;

/// Relies on `chrono`'s `DateTime` formatting over the system clock: the
/// cookie expiry date `max_age_secs` from now, as an HTTP date; the text
/// is never empty. The age bound keeps the time arithmetic inside the
/// representable range on every side.
#[verifier::external_body]
fn cookie_expiry(max_age_secs: u64) -> (r: String)
    requires
        max_age_secs <= MAX_COOKIE_AGE_SECS,
    ensures
        r@.len() > 0,
{
    let now = std::time::SystemTime::now();
    let expire_time = now + std::time::Duration::from_secs(max_age_secs);
    let datetime = chrono::DateTime::<chrono::Utc>::from(expire_time);
    datetime.format("%a, %d-%b-%Y %H:%M:%S GMT").to_string()
}

/// Adds a `Set-Cookie` header: the urlencoded name and value, an expiry
/// `max_age_secs` from now, path `/`, HTTP-only.
pub fn set_cookie(headers: &mut Headers, name: &str, value: &str, max_age_secs: u64)
    requires
        old(headers).wf(),
        max_age_secs <= MAX_COOKIE_AGE_SECS,
    ensures
        exists|v: Seq<u8>|
            final(headers)@ == #[trigger] spec_set_multiple(
                old(headers)@,
                str_bytes("Set-Cookie"@),
                v,
            ) && crate::scan::is_prefix_of(
                str_bytes(chars_of_bytes(url_encode_bytes(str_bytes(name@)))) + str_bytes("="@)
                    + str_bytes(chars_of_bytes(url_encode_bytes(str_bytes(value@)))),
                v,
            ),
{
    let encoded_name = url_encode(name);
    let encoded_value = url_encode(value);
    let expires = cookie_expiry(max_age_secs);
    let mut hv = encoded_name.as_str().as_bytes_vec();
    let mut eq = "=".as_bytes_vec();
    hv.append(&mut eq);
    let mut ev = encoded_value.as_str().as_bytes_vec();
    hv.append(&mut ev);
    let ghost front = hv@;
    let mut mid = "; Expires=".as_bytes_vec();
    hv.append(&mut mid);
    let mut ex = expires.as_str().as_bytes_vec();
    hv.append(&mut ex);
    let mut tail = "; Path=/; HttpOnly".as_bytes_vec();
    hv.append(&mut tail);
    proof {
        assert(hv@.take(front.len() as int) =~= front);
    }
    headers.set_multiple("Set-Cookie", hv.as_slice());
}

} // verus!
