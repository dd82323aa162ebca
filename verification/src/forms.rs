//! Form decoding results and the byte-size ceilings enforced while a
//! request body is decoded.

use vstd::prelude::*;
use crate::headers::str_bytes;
use crate::shortcuts::{name_matches, named_idx, lemma_named_idx_props, lemma_named_idx_exact,
    key_name_matches, SingleText};

verus! {

/// A file extracted from a multipart body: the client's file name and the
/// raw content.
#[derive(Debug)]
pub struct FileField {
    /// The file name the client supplied.
    pub name: String,
    content: Vec<u8>,
}

impl View for FileField {
    type V = (Seq<char>, Seq<u8>);

    closed spec fn view(&self) -> (Seq<char>, Seq<u8>) {
        (self.name@, self.content@)
    }
}

impl FileField {
    /// A file record from its name and content.
    pub fn from(name: &str, content: Vec<u8>) -> (r: FileField)
        ensures
            r@ == (name@, content@),
    {
        FileField { name: String::from_str(name), content }
    }

    /// The raw bytes of the uploaded file.
    pub fn content(&self) -> (r: &Vec<u8>)
        ensures
            r@ == self@.1,
    {
        &self.content
    }
}

/// Spec view of a list of text values.
pub open spec fn text_values_view(v: Seq<String>) -> Seq<Seq<char>> {
    Seq::new(v.len(), |j: int| v[j]@)
}

/// Spec view of a list of files.
pub open spec fn file_values_view(v: Seq<FileField>) -> Seq<(Seq<char>, Seq<u8>)> {
    Seq::new(v.len(), |j: int| v[j]@)
}

/// Ordered map from field name to the text values received under it.
#[derive(Debug)]
pub struct FormData {
    entries: Vec<(String, Vec<String>)>,
}

/// `add_value` semantics: append to an existing name's values (matched
/// byte for byte), else append a new entry.
pub open spec fn spec_add_value(
    v: Seq<(Seq<char>, Seq<Seq<char>>)>,
    name: Seq<char>,
    value: Seq<char>,
) -> Seq<(Seq<char>, Seq<Seq<char>>)> {
    match named_idx(v, str_bytes(name), false) {
        Some(i) => v.update(i, (v[i].0, v[i].1.push(value))),
        None => v.push((name, seq![value])),
    }
}

impl View for FormData {
    type V = Seq<(Seq<char>, Seq<Seq<char>>)>;

    closed spec fn view(&self) -> Seq<(Seq<char>, Seq<Seq<char>>)> {
        Seq::new(
            self.entries@.len(),
            |i: int| (self.entries@[i].0@, text_values_view(self.entries@[i].1@)),
        )
    }
}

impl FormData {
    pub open spec fn wf(&self) -> bool {
        forall|i: int| 0 <= i < self@.len() ==> #[trigger] self@[i].1.len() > 0
    }

    /// An empty field map.
    pub fn new() -> (r: FormData)
        ensures
            r@ == Seq::<(Seq<char>, Seq<Seq<char>>)>::empty(),
            r.wf(),
    {
        let r = FormData { entries: Vec::new() };
        proof {
            assert(r@ =~= Seq::<(Seq<char>, Seq<Seq<char>>)>::empty());
        }
        r
    }

    /// Appends one received value under a field name.
    pub fn add_value(&mut self, name: &str, value: String)
        requires
            old(self).wf(),
        ensures
            final(self).wf(),
            final(self)@ == spec_add_value(old(self)@, name@, value@),
    {
        let ghost vv = value@;
        let nb = name.as_bytes();
        let n: usize = self.entries.len();
        let mut i: usize = 0;
        while i < n
            invariant
                0 <= i <= n,
                n == self.entries@.len(),
                self@.len() == n,
                self.wf(),
                *self == *old(self),
                nb@ == str_bytes(name@),
                vv == value@,
                forall|j: int| 0 <= j < i ==> !name_matches(self@[j].0, nb@, false),
            decreases n - i,
        {
            if key_name_matches(&self.entries[i].0, nb, false) {
                assert(self@[i as int].0 == self.entries@[i as int].0@);
                proof {
                    lemma_named_idx_exact(self@, nb@, false, 0, i as int);
                }
                let er = vstd::std_specs::vec::vec_index_mut(&mut self.entries, i);
                er.1.push(value);
                proof {
                    let target = spec_add_value(old(self)@, name@, vv);
                    assert(text_values_view(er.1@) =~= old(self)@[i as int].1.push(vv));
                    assert forall|j: int| 0 <= j < final(self)@.len() implies final(self)@[j]
                        == target[j] by {
                        if j != i as int {
                            assert(final(self).entries@[j] == old(self).entries@[j]);
                        }
                    }
                    assert(final(self)@ =~= target);
                }
                return ;
            }
            assert(self@[i as int].0 == self.entries@[i as int].0@);
            i += 1;
        }
        proof {
            lemma_named_idx_props(self@, nb@, false, 0);
        }
        let mut vals: Vec<String> = Vec::new();
        vals.push(value);
        self.entries.push((String::from_str(name), vals));
        proof {
            let target = spec_add_value(old(self)@, name@, vv);
            assert forall|j: int| 0 <= j < final(self)@.len() implies final(self)@[j] == target[j]
            by {
                if j < old(self)@.len() {
                    assert(final(self).entries@[j] == old(self).entries@[j]);
                } else {
                    assert(text_values_view(final(self).entries@[j].1@) =~= seq![vv]);
                }
            }
            assert(final(self)@ =~= target);
        }
    }

    /// The stored entries in insertion order.
    pub fn entries(&self) -> (r: &Vec<(String, Vec<String>)>)
        ensures
            r@.len() == self@.len(),
            forall|i: int|
                0 <= i < r@.len() ==> #[trigger] r@[i].0@ == self@[i].0 && text_values_view(
                    r@[i].1@,
                ) == self@[i].1,
    {
        &self.entries
    }

    /// Case-insensitive lookup of the first value under a name.
    pub fn first_value(&self, name: &str) -> (r: Option<&String>)
        requires
            self.wf(),
        ensures
            r is Some <==> named_idx(self@, str_bytes(name@), true) is Some,
            r matches Some(s) ==> s@ == self@[named_idx(self@, str_bytes(name@), true)->Some_0].1[0],
    {
        let nb = name.as_bytes();
        let n: usize = self.entries.len();
        let mut i: usize = 0;
        while i < n
            invariant
                0 <= i <= n,
                n == self.entries@.len(),
                self@.len() == n,
                self.wf(),
                nb@ == str_bytes(name@),
                forall|j: int| 0 <= j < i ==> !name_matches(self@[j].0, nb@, true),
            decreases n - i,
        {
            if key_name_matches(&self.entries[i].0, nb, true) {
                assert(self@[i as int].0 == self.entries@[i as int].0@);
                proof {
                    lemma_named_idx_exact(self@, nb@, true, 0, i as int);
                }
                assert(self@[i as int].1.len() > 0);
                let vals = &self.entries[i].1;
                assert(text_values_view(vals@) == self@[i as int].1);
                let first = &vals[0];
                assert(first@ == self@[i as int].1[0]);
                return Some(first);
            }
            assert(self@[i as int].0 == self.entries@[i as int].0@);
            i += 1;
        }
        proof {
            lemma_named_idx_props(self@, nb@, true, 0);
        }
        None
    }
}

impl SingleText for FormData {
    fn value(&self, name: &str) -> Option<&String> {
        if !form_data_wf_runtime(self) {
            return None;
        }
        self.first_value(name)
    }
}

fn form_data_wf_runtime(d: &FormData) -> (r: bool)
    ensures
        r == d.wf(),
{
    let n: usize = d.entries.len();
    let mut i: usize = 0;
    while i < n
        invariant
            0 <= i <= n,
            n == d.entries@.len(),
            d@.len() == n,
            forall|j: int| 0 <= j < i ==> #[trigger] d@[j].1.len() > 0,
        decreases n - i,
    {
        if d.entries[i].1.len() == 0 {
            assert(d@[i as int].1.len() == 0);
            return false;
        }
        assert(d@[i as int].1.len() > 0);
        i += 1;
    }
    true
}

/// Ordered map from field name to the files received under it.
#[derive(Debug)]
pub struct Files {
    entries: Vec<(String, Vec<FileField>)>,
}

/// `add_file` semantics: append to an existing name's files (matched byte
/// for byte), else append a new entry.
pub open spec fn spec_add_file(
    v: Seq<(Seq<char>, Seq<(Seq<char>, Seq<u8>)>)>,
    name: Seq<char>,
    file: (Seq<char>, Seq<u8>),
) -> Seq<(Seq<char>, Seq<(Seq<char>, Seq<u8>)>)> {
    match named_idx(v, str_bytes(name), false) {
        Some(i) => v.update(i, (v[i].0, v[i].1.push(file))),
        None => v.push((name, seq![file])),
    }
}

impl View for Files {
    type V = Seq<(Seq<char>, Seq<(Seq<char>, Seq<u8>)>)>;

    closed spec fn view(&self) -> Seq<(Seq<char>, Seq<(Seq<char>, Seq<u8>)>)> {
        Seq::new(
            self.entries@.len(),
            |i: int| (self.entries@[i].0@, file_values_view(self.entries@[i].1@)),
        )
    }
}

impl Files {
    pub open spec fn wf(&self) -> bool {
        forall|i: int| 0 <= i < self@.len() ==> #[trigger] self@[i].1.len() > 0
    }

    /// An empty file map.
    pub fn new() -> (r: Files)
        ensures
            r@ == Seq::<(Seq<char>, Seq<(Seq<char>, Seq<u8>)>)>::empty(),
            r.wf(),
    {
        let r = Files { entries: Vec::new() };
        proof {
            assert(r@ =~= Seq::<(Seq<char>, Seq<(Seq<char>, Seq<u8>)>)>::empty());
        }
        r
    }

    /// Appends one received file under a field name.
    pub fn add_file(&mut self, name: &str, file: FileField)
        requires
            old(self).wf(),
        ensures
            final(self).wf(),
            final(self)@ == spec_add_file(old(self)@, name@, file@),
    {
        let ghost fv = file@;
        let nb = name.as_bytes();
        let n: usize = self.entries.len();
        let mut i: usize = 0;
        while i < n
            invariant
                0 <= i <= n,
                n == self.entries@.len(),
                self@.len() == n,
                self.wf(),
                *self == *old(self),
                nb@ == str_bytes(name@),
                fv == file@,
                forall|j: int| 0 <= j < i ==> !name_matches(self@[j].0, nb@, false),
            decreases n - i,
        {
            if key_name_matches(&self.entries[i].0, nb, false) {
                assert(self@[i as int].0 == self.entries@[i as int].0@);
                proof {
                    lemma_named_idx_exact(self@, nb@, false, 0, i as int);
                }
                let er = vstd::std_specs::vec::vec_index_mut(&mut self.entries, i);
                er.1.push(file);
                proof {
                    let target = spec_add_file(old(self)@, name@, fv);
                    assert(file_values_view(er.1@) =~= old(self)@[i as int].1.push(fv));
                    assert forall|j: int| 0 <= j < final(self)@.len() implies final(self)@[j]
                        == target[j] by {
                        if j != i as int {
                            assert(final(self).entries@[j] == old(self).entries@[j]);
                        }
                    }
                    assert(final(self)@ =~= target);
                }
                return ;
            }
            assert(self@[i as int].0 == self.entries@[i as int].0@);
            i += 1;
        }
        proof {
            lemma_named_idx_props(self@, nb@, false, 0);
        }
        let mut vals: Vec<FileField> = Vec::new();
        vals.push(file);
        self.entries.push((String::from_str(name), vals));
        proof {
            let target = spec_add_file(old(self)@, name@, fv);
            assert forall|j: int| 0 <= j < final(self)@.len() implies final(self)@[j] == target[j]
            by {
                if j < old(self)@.len() {
                    assert(final(self).entries@[j] == old(self).entries@[j]);
                } else {
                    assert(file_values_view(final(self).entries@[j].1@) =~= seq![fv]);
                }
            }
            assert(final(self)@ =~= target);
        }
    }

    /// The stored entries in insertion order.
    pub fn entries(&self) -> (r: &Vec<(String, Vec<FileField>)>)
        ensures
            r@.len() == self@.len(),
            forall|i: int|
                0 <= i < r@.len() ==> #[trigger] r@[i].0@ == self@[i].0 && file_values_view(
                    r@[i].1@,
                ) == self@[i].1,
    {
        &self.entries
    }

    /// Case-insensitive lookup of the first file under a name.
    pub fn first_file(&self, name: &str) -> (r: Option<&FileField>)
        requires
            self.wf(),
        ensures
            r is Some <==> named_idx(self@, str_bytes(name@), true) is Some,
            r matches Some(f) ==> f@ == self@[named_idx(self@, str_bytes(name@), true)->Some_0].1[0],
    {
        let nb = name.as_bytes();
        let n: usize = self.entries.len();
        let mut i: usize = 0;
        while i < n
            invariant
                0 <= i <= n,
                n == self.entries@.len(),
                self@.len() == n,
                self.wf(),
                nb@ == str_bytes(name@),
                forall|j: int| 0 <= j < i ==> !name_matches(self@[j].0, nb@, true),
            decreases n - i,
        {
            if key_name_matches(&self.entries[i].0, nb, true) {
                assert(self@[i as int].0 == self.entries@[i as int].0@);
                proof {
                    lemma_named_idx_exact(self@, nb@, true, 0, i as int);
                }
                assert(self@[i as int].1.len() > 0);
                let vals = &self.entries[i].1;
                assert(file_values_view(vals@) == self@[i as int].1);
                let first = &vals[0];
                assert(first@ == self@[i as int].1[0]);
                return Some(first);
            }
            assert(self@[i as int].0 == self.entries@[i as int].0@);
            i += 1;
        }
        proof {
            lemma_named_idx_props(self@, nb@, true, 0);
        }
        None
    }
}

/// Case-insensitive lookup of the first file stored under a name.
pub trait FileFieldShortcut {
    /// Performs case-insensitive lookup and returns the first file found.
    fn value(&self, name: &str) -> Option<&FileField>;
}

impl FileFieldShortcut for Files {
    fn value(&self, name: &str) -> Option<&FileField> {
        if !files_wf_runtime(self) {
            return None;
        }
        self.first_file(name)
    }
}

fn files_wf_runtime(d: &Files) -> (r: bool)
    ensures
        r == d.wf(),
{
    let n: usize = d.entries.len();
    let mut i: usize = 0;
    while i < n
        invariant
            0 <= i <= n,
            n == d.entries@.len(),
            d@.len() == n,
            forall|j: int| 0 <= j < i ==> #[trigger] d@[j].1.len() > 0,
        decreases n - i,
    {
        if d.entries[i].1.len() == 0 {
            assert(d@[i as int].1.len() == 0);
            return false;
        }
        assert(d@[i as int].1.len() > 0);
        i += 1;
    }
    true
}

/// Byte-size ceilings enforced while a request body is decoded. Each
/// accessor takes the caller's I/O buffer size and never returns less
/// than one read chunk.
pub struct FormConstraints {
    max_body_size: usize,
    max_header_size: usize,
    max_file_size: usize,
    max_value_size: usize,
    custom_max_sizes: Vec<(String, usize)>,
}

impl FormConstraints {
    pub closed spec fn cfg_body(&self) -> usize {
        self.max_body_size
    }

    pub closed spec fn cfg_header(&self) -> usize {
        self.max_header_size
    }

    pub closed spec fn cfg_file(&self) -> usize {
        self.max_file_size
    }

    pub closed spec fn cfg_value(&self) -> usize {
        self.max_value_size
    }

    pub closed spec fn cfg_custom(&self) -> Seq<(Seq<char>, usize)> {
        Seq::new(
            self.custom_max_sizes@.len(),
            |i: int| (self.custom_max_sizes@[i].0@, self.custom_max_sizes@[i].1),
        )
    }

    /// The per-name ceiling for a field value, before the buffer floor:
    /// the override when one is configured, else the default for values.
    pub open spec fn field_limit(&self, name: Seq<u8>) -> usize {
        match named_idx(self.cfg_custom(), name, false) {
            Some(i) => self.cfg_custom()[i].1,
            None => self.cfg_value(),
        }
    }

    /// The per-name ceiling for a file, before the buffer floor.
    pub open spec fn file_limit(&self, name: Seq<u8>) -> usize {
        match named_idx(self.cfg_custom(), name, false) {
            Some(i) => self.cfg_custom()[i].1,
            None => self.cfg_file(),
        }
    }

    /// Ceilings from the administrator's configuration; `custom_max_sizes`
    /// overrides the value and file ceilings for the named fields.
    pub fn new(
        max_body_size: usize,
        max_header_size: usize,
        max_file_size: usize,
        max_value_size: usize,
        custom_max_sizes: Vec<(String, usize)>,
    ) -> (r: FormConstraints)
        ensures
            r.cfg_body() == max_body_size,
            r.cfg_header() == max_header_size,
            r.cfg_file() == max_file_size,
            r.cfg_value() == max_value_size,
            r.cfg_custom().len() == custom_max_sizes@.len(),
            forall|i: int|
                0 <= i < custom_max_sizes@.len() ==> #[trigger] r.cfg_custom()[i] == (
                custom_max_sizes@[i].0@,
                custom_max_sizes@[i].1,
                ),
    {
        FormConstraints {
            max_body_size,
            max_header_size,
            max_file_size,
            max_value_size,
            custom_max_sizes,
        }
    }

    /// Body ceiling, never below one read chunk.
    pub fn max_body_size(&self, buffer_size: usize) -> (r: usize)
        ensures
            r == if buffer_size > self.cfg_body() {
                buffer_size
            } else {
                self.cfg_body()
            },
    {
        if buffer_size > self.max_body_size {
            return buffer_size;
        }
        self.max_body_size
    }

    /// Part-header ceiling, never below one read chunk.
    pub fn max_header_size(&self, buffer_size: usize) -> (r: usize)
        ensures
            r == if buffer_size > self.cfg_header() {
                buffer_size
            } else {
                self.cfg_header()
            },
    {
        if buffer_size > self.max_header_size {
            return buffer_size;
        }
        self.max_header_size
    }

    /// Field-value ceiling, never below one read chunk.
    pub fn max_value_size(&self, buffer_size: usize) -> (r: usize)
        ensures
            r == if buffer_size > self.cfg_value() {
                buffer_size
            } else {
                self.cfg_value()
            },
    {
        if buffer_size > self.max_value_size {
            return buffer_size;
        }
        self.max_value_size
    }

    /// Ceiling for the named field's text value, never below one read
    /// chunk.
    pub fn max_size_for_field(&self, field_name: &String, buffer_size: usize) -> (r: usize)
        ensures
            r == if buffer_size > self.field_limit(str_bytes(field_name@)) {
                buffer_size
            } else {
                self.field_limit(str_bytes(field_name@))
            },
    {
        let limit = self.custom_limit(field_name);
        let base = match limit {
            Some(l) => l,
            None => self.max_value_size,
        };
        if buffer_size > base {
            buffer_size
        } else {
            base
        }
    }

    /// Ceiling for the named field's file, never below one read chunk.
    pub fn max_size_for_file(&self, field_name: &String, buffer_size: usize) -> (r: usize)
        ensures
            r == if buffer_size > self.file_limit(str_bytes(field_name@)) {
                buffer_size
            } else {
                self.file_limit(str_bytes(field_name@))
            },
    {
        let limit = self.custom_limit(field_name);
        let base = match limit {
            Some(l) => l,
            None => self.max_file_size,
        };
        if buffer_size > base {
            buffer_size
        } else {
            base
        }
    }

    fn custom_limit(&self, field_name: &String) -> (r: Option<usize>)
        ensures
            r is Some <==> named_idx(self.cfg_custom(), str_bytes(field_name@), false) is Some,
            r matches Some(l) ==> l == self.cfg_custom()[named_idx(
                self.cfg_custom(),
                str_bytes(field_name@),
                false,
            )->Some_0].1,
    {
        let nb = field_name.as_str().as_bytes();
        let n: usize = self.custom_max_sizes.len();
        let mut i: usize = 0;
        while i < n
            invariant
                0 <= i <= n,
                n == self.custom_max_sizes@.len(),
                self.cfg_custom().len() == n,
                nb@ == str_bytes(field_name@),
                forall|j: int| 0 <= j < i ==> !name_matches(self.cfg_custom()[j].0, nb@, false),
            decreases n - i,
        {
            if key_name_matches(&self.custom_max_sizes[i].0, nb, false) {
                assert(self.cfg_custom()[i as int].0 == self.custom_max_sizes@[i as int].0@);
                proof {
                    lemma_named_idx_exact(self.cfg_custom(), nb@, false, 0, i as int);
                }
                return Some(self.custom_max_sizes[i].1);
            }
            assert(self.cfg_custom()[i as int].0 == self.custom_max_sizes@[i as int].0@);
            i += 1;
        }
        proof {
            lemma_named_idx_props(self.cfg_custom(), nb@, false, 0);
        }
        None
    }
}

/// Failure while a request body is decoded; field-scoped errors carry the
/// field name, and `Others` carries whether the detail must stay private.
#[derive(Debug)]
pub enum FormFieldError {
    /// Max form body size exceeded.
    MaxBodySizeExceed,
    /// Maximum form part header size exceeded.
    MaxHeaderSizeExceed,
    /// Maximum file size exceeded, with the field name.
    MaxFileSizeExceed(String),
    /// Maximum text value size exceeded, with the field name.
    MaxValueSizeExceed(String),
    /// Any other failure: field name if known, description, and whether
    /// the detail is too sensitive to expose to the client.
    Others(Option<String>, String, bool),
}

/// The client-visible text of a body decode error, as the connection
/// handler applies the expose policy: validation-shaped errors verbatim,
/// anything marked critical replaced by a generic line.
pub fn client_error_text(error: &FormFieldError) -> (r: String)
    ensures
        error is MaxBodySizeExceed ==> r@ == "Body size limit exceeded."@,
        error is MaxHeaderSizeExceed ==> r@ == "Form part header size limit exceeded."@,
        error matches FormFieldError::MaxFileSizeExceed(n) ==> r@
            == "File size limit exceeded for field "@ + n@ + "."@,
        error matches FormFieldError::MaxValueSizeExceed(n) ==> r@
            == "Value size limit exceeded for field "@ + n@ + "."@,
        error matches FormFieldError::Others(_, m, critical) ==> r@ == if *critical {
            "Failed to read the request body."@
        } else {
            m@
        },
{
    match error {
        FormFieldError::MaxBodySizeExceed => String::from_str("Body size limit exceeded."),
        FormFieldError::MaxHeaderSizeExceed => String::from_str(
            "Form part header size limit exceeded.",
        ),
        FormFieldError::MaxFileSizeExceed(n) => {
            let mut s = String::from_str("File size limit exceeded for field ");
            s.append(n.as_str());
            s.append(".");
            s
        },
        FormFieldError::MaxValueSizeExceed(n) => {
            let mut s = String::from_str("Value size limit exceeded for field ");
            s.append(n.as_str());
            s.append(".");
            s
        },
        FormFieldError::Others(_, m, critical) => {
            if *critical {
                String::from_str("Failed to read the request body.")
            } else {
                m.clone()
            }
        },
    }
}

} // verus!
