use vstd::prelude::*;
use crate::bytes::{
    be32_bytes, be32_value, be_bytes, be_value, string_from_bytes, u32_from_bytes, u32_to_bytes, u64_from_bytes,
    u64_to_bytes,
};
use crate::error::{Error, ErrorKind};
use crate::tree::{append_bytes, copy_bytes, has_prefix, remove_prefixed, with_prefix, Pair, Tree};
use vstd::utf8::{decode_utf8, encode_utf8, valid_utf8};

verus! {

/// The key of a stored file's metadata: the MXC URI, 0xFF, width and height
/// as four big-endian bytes each, 0xFF, the content disposition, 0xFF, the
/// content type.
pub open spec fn media_key(mxc: Seq<char>, width: u32, height: u32, disposition: Seq<u8>, content_type: Seq<u8>) -> Seq<u8> {
    thumbnail_prefix(mxc, width, height) + disposition.push(0xFFu8) + content_type
}

/// The prefix of the metadata keys of one size of a file.
pub open spec fn thumbnail_prefix(mxc: Seq<char>, width: u32, height: u32) -> Seq<u8> {
    (encode_utf8(mxc).push(0xFFu8) + be32_bytes(width) + be32_bytes(height)).push(0xFFu8)
}

/// The prefix of every metadata key of a file.
pub open spec fn mxc_prefix(mxc: Seq<char>) -> Seq<u8> {
    encode_utf8(mxc).push(0xFFu8)
}

/// The bytes of an optional text, empty when absent.
pub open spec fn opt_bytes(s: Option<&str>) -> Seq<u8> {
    match s {
        Some(t) => encode_utf8(t@),
        None => Seq::empty(),
    }
}

/// The last 0xFF byte of `s` before position `end`.
pub open spec fn last_ff_before(s: Seq<u8>, end: int) -> Option<int>
    decreases end,
{
    if end <= 0 || end > s.len() {
        None
    } else if s[end - 1] == 0xFFu8 {
        Some(end - 1)
    } else {
        last_ff_before(s, end - 1)
    }
}

/// The last two fields of a metadata key, split at its last two 0xFF bytes:
/// the content disposition and the content type.
pub open spec fn key_tail(key: Seq<u8>) -> Option<(Seq<u8>, Seq<u8>)> {
    match last_ff_before(key, key.len() as int) {
        None => None,
        Some(last) => Some(
            (
                match last_ff_before(key, last) {
                    Some(prev) => key.subrange(prev + 1, last),
                    None => key.subrange(0, last),
                },
                key.subrange(last + 1, key.len() as int),
            ),
        ),
    }
}

/// The last 0xFF byte before `end`, if any.
fn find_last_ff(s: &[u8], end: usize) -> (r: Option<usize>)
    requires
        end <= s@.len(),
    ensures
        r is None ==> last_ff_before(s@, end as int) is None,
        r is Some ==> last_ff_before(s@, end as int) == Some(r->Some_0 as int) && r->Some_0 < end,
{
    let mut e: usize = end;
    while e > 0
        invariant
            e <= end <= s@.len(),
            last_ff_before(s@, end as int) == last_ff_before(s@, e as int),
        decreases e,
    {
        if s[e - 1] == 0xFFu8 {
            return Some(e - 1);
        }
        e -= 1;
    }
    None
}

/// The metadata of stored media and the URL previews.
pub struct Media {
    pub mediaid_file: Tree,
    pub mediaid_user: Tree,
    pub url_previews: Tree,
}

/// What a URL preview shows; absent fields are unknown.
#[derive(Clone, Debug, PartialEq, Eq)]
pub struct UrlPreviewData {
    pub title: Option<String>,
    pub description: Option<String>,
    pub image: Option<String>,
    pub image_size: Option<u64>,
    pub image_width: Option<u32>,
    pub image_height: Option<u32>,
}

/// The fields of a stored preview, split at every 0xFF byte.
pub open spec fn split_ff(s: Seq<u8>) -> Seq<Seq<u8>>
    decreases s.len(),
{
    match crate::tree::ff_from(s, 0) {
        None => seq![s],
        Some(i) => if 0 <= i < s.len() {
            seq![s.take(i)] + split_ff(s.skip(i + 1))
        } else {
            seq![s]
        },
    }
}

/// A text field of a stored preview: absent, empty or not UTF-8 is none.
pub open spec fn text_field(f: Option<Seq<u8>>) -> Option<Seq<char>> {
    match f {
        Some(b) => if valid_utf8(b) && b.len() > 0 {
            Some(decode_utf8(b))
        } else {
            None
        },
        None => None,
    }
}

/// A field of a stored preview, if the value has that many.
pub open spec fn field(fields: Seq<Seq<u8>>, i: int) -> Option<Seq<u8>> {
    if 0 <= i < fields.len() {
        Some(fields[i])
    } else {
        None
    }
}

/// A numeric field of eight bytes: other lengths read as 0, and 0 is none.
pub open spec fn u64_field(f: Option<Seq<u8>>) -> Option<u64> {
    match f {
        Some(b) => if b.len() == 8 && be_value(b) != 0 {
            Some(be_value(b))
        } else {
            None
        },
        None => None,
    }
}

/// A numeric field of four bytes: other lengths read as 0, and 0 is none.
pub open spec fn u32_field(f: Option<Seq<u8>>) -> Option<u32> {
    match f {
        Some(b) => if b.len() == 4 && be32_value(b) != 0 {
            Some(be32_value(b))
        } else {
            None
        },
        None => None,
    }
}

/// Whether a preview read back matches the stored fields.
pub open spec fn preview_from(d: UrlPreviewData, fields: Seq<Seq<u8>>) -> bool {
    &&& opt_view(d.title) == text_field(field(fields, 1))
    &&& opt_view(d.description) == text_field(field(fields, 2))
    &&& opt_view(d.image) == text_field(field(fields, 3))
    &&& d.image_size == u64_field(field(fields, 4))
    &&& d.image_width == u32_field(field(fields, 5))
    &&& d.image_height == u32_field(field(fields, 6))
}

pub open spec fn opt_view(o: Option<String>) -> Option<Seq<char>> {
    match o {
        Some(s) => Some(s@),
        None => None,
    }
}

/// The stored value of a preview: the timestamp, then title, description,
/// image, image size, width and height, separated by 0xFF bytes.
pub open spec fn preview_value(d: UrlPreviewData, timestamp_secs: u64) -> Seq<u8> {
    be_bytes(timestamp_secs) + seq![0xFFu8] + opt_string_bytes(d.title) + seq![0xFFu8] + opt_string_bytes(
        d.description,
    ) + seq![0xFFu8] + opt_string_bytes(d.image) + seq![0xFFu8] + be_bytes(
        match d.image_size {
            Some(n) => n,
            None => 0,
        },
    ) + seq![0xFFu8] + be32_bytes(
        match d.image_width {
            Some(n) => n,
            None => 0,
        },
    ) + seq![0xFFu8] + be32_bytes(
        match d.image_height {
            Some(n) => n,
            None => 0,
        },
    )
}

pub open spec fn opt_string_bytes(s: Option<String>) -> Seq<u8> {
    match s {
        Some(t) => encode_utf8(t@),
        None => Seq::empty(),
    }
}

/// Appends the bytes of an optional text.
fn push_opt(v: &mut Vec<u8>, s: &Option<String>)
    ensures
        final(v)@ == old(v)@ + opt_string_bytes(*s),
{
    match s {
        Some(t) => append_bytes(v, t.as_str().as_bytes()),
        None => {
            assert(old(v)@ + Seq::<u8>::empty() =~= old(v)@);
        },
    }
}

/// Reads a text field of a stored preview.
fn read_text(f: Option<&[u8]>) -> (r: Option<String>)
    ensures
        opt_view(r) == text_field(
            match f {
                Some(b) => Some(b@),
                None => None,
            },
        ),
{
    match f {
        None => None,
        Some(b) => match string_from_bytes(b) {
            Ok(s) => {
                if b.len() == 0 {
                    None
                } else {
                    Some(s)
                }
            },
            Err(()) => None,
        },
    }
}

impl Media {
    pub open spec fn wf(&self) -> bool {
        self.mediaid_file.wf() && self.mediaid_user.wf() && self.url_previews.wf()
    }

    pub fn new() -> (r: Media)
        ensures
            r.wf(),
    {
        Media { mediaid_file: Tree::new(), mediaid_user: Tree::new(), url_previews: Tree::new() }
    }

    /// Records a stored file's metadata and, when known, its uploader;
    /// returns the metadata key.
    pub fn create_file_metadata(
        &mut self,
        sender_user: Option<&str>,
        mxc: &str,
        width: u32,
        height: u32,
        content_disposition: Option<&str>,
        content_type: Option<&str>,
    ) -> (r: Result<Vec<u8>, Error>)
        requires
            old(self).wf(),
        ensures
            final(self).wf(),
            r is Ok,
            r->Ok_0@ == media_key(mxc@, width, height, opt_bytes(content_disposition), opt_bytes(content_type)),
            final(self).mediaid_file@ == old(self).mediaid_file@.insert(r->Ok_0@, Seq::empty()),
            sender_user is Some ==> final(self).mediaid_user@ == old(self).mediaid_user@.insert(
                encode_utf8(mxc@),
                encode_utf8(sender_user->Some_0@),
            ),
            sender_user is None ==> final(self).mediaid_user@ == old(self).mediaid_user@,
            final(self).url_previews@ == old(self).url_previews@,
    {
        let mut key = copy_bytes(mxc.as_bytes());
        key.push(0xFFu8);
        let w = u32_to_bytes(width);
        append_bytes(&mut key, w.as_slice());
        let h = u32_to_bytes(height);
        append_bytes(&mut key, h.as_slice());
        key.push(0xFFu8);
        match content_disposition {
            Some(c) => append_bytes(&mut key, c.as_bytes()),
            None => {},
        }
        let ghost mid = key@;
        key.push(0xFFu8);
        match content_type {
            Some(c) => append_bytes(&mut key, c.as_bytes()),
            None => {},
        }
        assert(key@ =~= media_key(mxc@, width, height, opt_bytes(content_disposition), opt_bytes(content_type)));
        let empty: Vec<u8> = Vec::new();
        assert(empty@ =~= Seq::<u8>::empty());
        self.mediaid_file.insert(key.as_slice(), empty.as_slice());
        match sender_user {
            Some(user) => {
                let k = copy_bytes(mxc.as_bytes());
                let u = copy_bytes(user.as_bytes());
                self.mediaid_user.insert(k.as_slice(), u.as_slice());
            },
            None => {},
        }
        Ok(key)
    }

    /// Forgets every metadata record of a file and its uploader.
    pub fn delete_file_mxc(&mut self, mxc: &str)
        requires
            old(self).wf(),
        ensures
            final(self).wf(),
            forall|k: Seq<u8>| #[trigger]
                final(self).mediaid_file@.contains_key(k) <==> old(self).mediaid_file@.contains_key(k)
                    && !has_prefix(k, mxc_prefix(mxc@)),
            forall|k: Seq<u8>| #[trigger]
                final(self).mediaid_file@.contains_key(k) ==> final(self).mediaid_file@[k] == old(
                    self,
                ).mediaid_file@[k],
            final(self).mediaid_user@ == old(self).mediaid_user@.remove(encode_utf8(mxc@)),
            final(self).url_previews@ == old(self).url_previews@,
    {
        let mut prefix = copy_bytes(mxc.as_bytes());
        prefix.push(0xFFu8);
        remove_prefixed(&mut self.mediaid_file, prefix.as_slice());
        let key = copy_bytes(mxc.as_bytes());
        self.mediaid_user.remove(key.as_slice());
    }

    /// The metadata keys of every stored size of a file; none is a database
    /// error.
    pub fn search_mxc_metadata_prefix(&self, mxc: &str) -> (r: Result<Vec<Vec<u8>>, Error>)
        requires
            self.wf(),
        ensures
            r is Ok <==> with_prefix(self.mediaid_file.pairs(), mxc_prefix(mxc@)).len() > 0,
            r is Ok ==> r->Ok_0@.len() == with_prefix(self.mediaid_file.pairs(), mxc_prefix(mxc@)).len(),
            r is Ok ==> forall|i: int|
                0 <= i < r->Ok_0@.len() ==> (#[trigger] r->Ok_0@[i])@ == with_prefix(
                    self.mediaid_file.pairs(),
                    mxc_prefix(mxc@),
                )[i].0,
            r is Err ==> r->Err_0 == Error::BadDatabase,
    {
        let mut prefix = copy_bytes(mxc.as_bytes());
        prefix.push(0xFFu8);
        let scan = self.mediaid_file.scan_prefix(prefix.as_slice());
        let ghost w = with_prefix(self.mediaid_file.pairs(), prefix@);
        let mut keys: Vec<Vec<u8>> = Vec::new();
        let mut i: usize = 0;
        while i < scan.len()
            invariant
                i <= scan@.len(),
                scan@.map_values(|e: (Vec<u8>, Vec<u8>)| (e.0@, e.1@)) == w,
                keys@.len() == i,
                forall|j: int| 0 <= j < i ==> (#[trigger] keys@[j])@ == w[j].0,
            decreases scan@.len() - i,
        {
            assert(w[i as int].0 == scan@[i as int].0@);
            keys.push(copy_bytes(scan[i].0.as_slice()));
            i += 1;
        }
        if keys.len() == 0 {
            return Err(Error::BadDatabase);
        }
        Ok(keys)
    }

    /// The content disposition, content type and key of the first metadata
    /// record of one size of a file.
    pub fn search_file_metadata(&self, mxc: &str, width: u32, height: u32) -> (r: Result<
        (Option<String>, Option<String>, Vec<u8>),
        Error,
    >)
        requires
            self.wf(),
        ensures
            with_prefix(self.mediaid_file.pairs(), thumbnail_prefix(mxc@, width, height)).len() == 0 ==> r
                == Err::<(Option<String>, Option<String>, Vec<u8>), Error>(
                Error::BadRequest(ErrorKind::NotFound),
            ),
            r is Ok ==> ({
                let key = with_prefix(self.mediaid_file.pairs(), thumbnail_prefix(mxc@, width, height))[0].0;
                let tail = key_tail(key)->Some_0;
                &&& r->Ok_0.2@ == key
                &&& key_tail(key) is Some
                &&& valid_utf8(tail.1) && r->Ok_0.1 is Some && r->Ok_0.1->Some_0@ == decode_utf8(tail.1)
                &&& tail.0.len() == 0 ==> r->Ok_0.0 is None
                &&& tail.0.len() > 0 ==> valid_utf8(tail.0) && r->Ok_0.0 is Some && r->Ok_0.0->Some_0@
                    == decode_utf8(tail.0)
            }),
            r is Err ==> r->Err_0 == Error::BadDatabase || r->Err_0 == Error::BadRequest(ErrorKind::NotFound),
    {
        let mut prefix = copy_bytes(mxc.as_bytes());
        prefix.push(0xFFu8);
        let w = u32_to_bytes(width);
        append_bytes(&mut prefix, w.as_slice());
        let h = u32_to_bytes(height);
        append_bytes(&mut prefix, h.as_slice());
        prefix.push(0xFFu8);
        assert(prefix@ =~= thumbnail_prefix(mxc@, width, height));
        let scan = self.mediaid_file.scan_prefix(prefix.as_slice());
        if scan.len() == 0 {
            return Err(Error::BadRequest(ErrorKind::NotFound));
        }
        let key = copy_bytes(scan[0].0.as_slice());
        assert(key@ == with_prefix(self.mediaid_file.pairs(), prefix@)[0].0) by {
            assert(scan@.map_values(|e: (Vec<u8>, Vec<u8>)| (e.0@, e.1@))[0] == (scan@[0].0@, scan@[0].1@));
        }
        let n = key.len();
        let last = match find_last_ff(key.as_slice(), n) {
            Some(l) => l,
            None => return Err(Error::BadDatabase),
        };
        let content_type = match string_from_bytes(&key.as_slice()[last + 1..n]) {
            Ok(s) => s,
            Err(()) => return Err(Error::BadDatabase),
        };
        let start = match find_last_ff(key.as_slice(), last) {
            Some(p) => p + 1,
            None => 0,
        };
        let cd_bytes = &key.as_slice()[start..last];
        let content_disposition = if cd_bytes.len() == 0 {
            None
        } else {
            match string_from_bytes(cd_bytes) {
                Ok(s) => Some(s),
                Err(()) => return Err(Error::BadDatabase),
            }
        };
        Ok((content_disposition, Some(content_type), key))
    }

    /// Every metadata key, in order.
    pub fn get_all_media_keys(&self) -> (r: Vec<Vec<u8>>)
        requires
            self.wf(),
        ensures
            r@.len() == self.mediaid_file.pairs().len(),
            forall|i: int| 0 <= i < r@.len() ==> (#[trigger] r@[i])@ == self.mediaid_file.pairs()[i].0,
    {
        let empty: Vec<u8> = Vec::new();
        let scan = self.mediaid_file.scan_prefix(empty.as_slice());
        proof {
            let s = self.mediaid_file.pairs();
            let pred = |e: Pair| has_prefix(e.0, empty@);
            assert forall|j: int| 0 <= j < s.len() implies pred(#[trigger] s[j]) by {
                assert(s[j].0.subrange(0, 0) =~= empty@);
            }
            crate::tree::lemma_filter_all(s, pred);
        }
        let ghost s = self.mediaid_file.pairs();
        let mut keys: Vec<Vec<u8>> = Vec::new();
        let mut i: usize = 0;
        while i < scan.len()
            invariant
                i <= scan@.len(),
                scan@.map_values(|e: (Vec<u8>, Vec<u8>)| (e.0@, e.1@)) == s,
                keys@.len() == i,
                forall|j: int| 0 <= j < i ==> (#[trigger] keys@[j])@ == s[j].0,
            decreases scan@.len() - i,
        {
            assert(s[i as int].0 == scan@[i as int].0@);
            keys.push(copy_bytes(scan[i].0.as_slice()));
            i += 1;
        }
        keys
    }

    /// Forgets the preview of a URL.
    pub fn remove_url_preview(&mut self, url: &str)
        requires
            old(self).wf(),
        ensures
            final(self).wf(),
            final(self).url_previews@ == old(self).url_previews@.remove(encode_utf8(url@)),
            final(self).mediaid_file@ == old(self).mediaid_file@,
            final(self).mediaid_user@ == old(self).mediaid_user@,
    {
        let key = copy_bytes(url.as_bytes());
        self.url_previews.remove(key.as_slice());
    }

    /// Stores the preview of a URL, fetched at `timestamp_secs`.
    pub fn set_url_preview(&mut self, url: &str, data: &UrlPreviewData, timestamp_secs: u64)
        requires
            old(self).wf(),
        ensures
            final(self).wf(),
            final(self).url_previews@ == old(self).url_previews@.insert(
                encode_utf8(url@),
                preview_value(*data, timestamp_secs),
            ),
            final(self).mediaid_file@ == old(self).mediaid_file@,
            final(self).mediaid_user@ == old(self).mediaid_user@,
    {
        let mut value = u64_to_bytes(timestamp_secs);
        value.push(0xFFu8);
        push_opt(&mut value, &data.title);
        value.push(0xFFu8);
        push_opt(&mut value, &data.description);
        value.push(0xFFu8);
        push_opt(&mut value, &data.image);
        value.push(0xFFu8);
        let size = match data.image_size {
            Some(n) => n,
            None => 0,
        };
        let sb = u64_to_bytes(size);
        append_bytes(&mut value, sb.as_slice());
        value.push(0xFFu8);
        let width = match data.image_width {
            Some(n) => n,
            None => 0,
        };
        let wb = u32_to_bytes(width);
        append_bytes(&mut value, wb.as_slice());
        value.push(0xFFu8);
        let height = match data.image_height {
            Some(n) => n,
            None => 0,
        };
        let hb = u32_to_bytes(height);
        append_bytes(&mut value, hb.as_slice());
        assert(value@ =~= preview_value(*data, timestamp_secs));
        let key = copy_bytes(url.as_bytes());
        self.url_previews.insert(key.as_slice(), value.as_slice());
    }
}

} // verus!

verus! {

proof fn lemma_ff_from_skip(s: Seq<u8>, k: int, j: int)
    requires
        0 <= k <= j,
        k <= s.len(),
    ensures
        ff_from_shift(crate::tree::ff_from(s.skip(k), j - k), k) == crate::tree::ff_from(s, j),
    decreases s.len() - j,
{
    if j < s.len() && s[j] != 0xFFu8 {
        lemma_ff_from_skip(s, k, j + 1);
    }
    if j < s.len() {
        assert(s.skip(k)[j - k] == s[j]);
    }
}

pub open spec fn ff_from_shift(o: Option<int>, k: int) -> Option<int> {
    match o {
        Some(i) => Some(i + k),
        None => None,
    }
}

/// The fields of a stored value, split at every 0xFF byte.
fn split_all(b: &[u8]) -> (r: Vec<Vec<u8>>)
    ensures
        r@.map_values(|v: Vec<u8>| v@) == split_ff(b@),
{
    let mut r: Vec<Vec<u8>> = Vec::new();
    let mut start: usize = 0;
    assert(b@.skip(0) =~= b@);
    loop
        invariant
            start <= b@.len(),
            r@.map_values(|v: Vec<u8>| v@) + split_ff(b@.skip(start as int)) == split_ff(b@),
        decreases b@.len() - start,
    {
        let ghost rest = b@.skip(start as int);
        let ghost before = r@;
        proof {
            lemma_ff_from_skip(b@, start as int, start as int);
        }
        match crate::tree::first_ff_from(b, start) {
            None => {
                let piece = copy_bytes(&b[start..b.len()]);
                assert(piece@ =~= rest);
                r.push(piece);
                assert(r@.map_values(|v: Vec<u8>| v@) =~= before.map_values(|v: Vec<u8>| v@) + seq![rest]);
                return r;
            },
            Some(i) => {
                proof {
                    crate::tree::lemma_ff_from(b@, start as int);
                }
                assert(i < b.len());
                let piece = copy_bytes(&b[start..i]);
                assert(piece@ =~= rest.take(i - start));
                r.push(piece);
                assert(rest.skip(i - start + 1) =~= b@.skip(i + 1));
                assert(r@.map_values(|v: Vec<u8>| v@) =~= before.map_values(|v: Vec<u8>| v@) + seq![
                    rest.take(i - start),
                ]);
                start = i + 1;
            },
        }
    }
}

impl Media {
    /// The stored preview of a URL.
    pub fn get_url_preview(&self, url: &str) -> (r: Option<UrlPreviewData>)
        requires
            self.wf(),
        ensures
            r is Some <==> self.url_previews@.contains_key(encode_utf8(url@)),
            r is Some ==> preview_from(r->Some_0, split_ff(self.url_previews@[encode_utf8(url@)])),
    {
        let key = copy_bytes(url.as_bytes());
        let value = match self.url_previews.get(key.as_slice()) {
            None => return None,
            Some(v) => v,
        };
        let fields = split_all(value.as_slice());
        let ghost fv = fields@.map_values(|v: Vec<u8>| v@);
        let n = fields.len();
        let title = read_text(if n > 1 { Some(fields[1].as_slice()) } else { None });
        let description = read_text(if n > 2 { Some(fields[2].as_slice()) } else { None });
        let image = read_text(if n > 3 { Some(fields[3].as_slice()) } else { None });
        let image_size = if n > 4 {
            match u64_from_bytes(fields[4].as_slice()) {
                Ok(0) => None,
                Ok(v) => Some(v),
                Err(()) => None,
            }
        } else {
            None
        };
        let image_width = if n > 5 {
            match u32_from_bytes(fields[5].as_slice()) {
                Ok(0) => None,
                Ok(v) => Some(v),
                Err(()) => None,
            }
        } else {
            None
        };
        let image_height = if n > 6 {
            match u32_from_bytes(fields[6].as_slice()) {
                Ok(0) => None,
                Ok(v) => Some(v),
                Err(()) => None,
            }
        } else {
            None
        };
        proof {
            assert forall|i: int| 0 <= i < n implies fv[i] == fields@[i]@ by {}
        }
        Some(UrlPreviewData { title, description, image, image_size, image_width, image_height })
    }
}

} // verus!
