//! The rules of the file panels: which files count as images, how an image
//! is handed out, and in what order a directory is listed.
use vstd::prelude::*;
use crate::text::text_lt;

verus! {

/// The name and size in bytes of a file.
#[derive(Clone, Debug)]
pub struct FileInfo {
    pub name: String,
    pub size: u64,
}

/// One entry of a directory listing; `size` is `None` for a directory.
#[derive(Clone, Debug)]
pub struct DirectoryEntry {
    pub name: String,
    pub is_dir: bool,
    pub size: Option<u64>,
    pub path: String,
}

pub struct DirectoryEntryView {
    pub name: Seq<char>,
    pub is_dir: bool,
    pub size: Option<u64>,
    pub path: Seq<char>,
}

impl View for DirectoryEntry {
    type V = DirectoryEntryView;

    open spec fn view(&self) -> DirectoryEntryView {
        DirectoryEntryView { name: self.name@, is_dir: self.is_dir, size: self.size, path: self.path@ }
    }
}

impl DirectoryEntry {
    /// A field-by-field copy.
    pub fn copy(&self) -> (r: DirectoryEntry)
        ensures
            r@ == self@,
    {
        DirectoryEntry {
            name: self.name.clone(),
            is_dir: self.is_dir,
            size: self.size,
            path: self.path.clone(),
        }
    }
}

pub open spec fn entry_views(v: Seq<DirectoryEntry>) -> Seq<DirectoryEntryView> {
    v.map_values(|e: DirectoryEntry| e@)
}

/// Directories come before files; within each, names go in byte order.
pub open spec fn listed_before(a: DirectoryEntryView, b: DirectoryEntryView) -> bool {
    (a.is_dir && !b.is_dir) || (a.is_dir == b.is_dir && text_lt(a.name, b.name))
}

/// Places `e` before the first entry of `s` that it comes before.
pub open spec fn insert_entry(s: Seq<DirectoryEntryView>, e: DirectoryEntryView) -> Seq<DirectoryEntryView>
    decreases s.len(),
{
    if s.len() == 0 {
        seq![e]
    } else if listed_before(e, s[0]) {
        seq![e] + s
    } else {
        seq![s[0]] + insert_entry(s.drop_first(), e)
    }
}

/// The entries in listing order; entries that neither comes before the
/// other keep their order in `s`.
pub open spec fn listing_order(s: Seq<DirectoryEntryView>) -> Seq<DirectoryEntryView>
    decreases s.len(),
{
    if s.len() == 0 {
        seq![]
    } else {
        insert_entry(listing_order(s.drop_last()), s.last())
    }
}

/// The extensions, in lower case, of the files shown as images.
pub open spec fn image_extension(e: Seq<char>) -> bool {
    e == "jpg"@ || e == "jpeg"@ || e == "png"@ || e == "gif"@ || e == "webp"@
}

/// What `str::to_lowercase` makes of a text.
pub uninterp spec fn lowercase_of(s: Seq<char>) -> Seq<char>;

/// The standard base64 encoding, with padding, of some bytes.
pub uninterp spec fn base64_of(b: Seq<u8>) -> Seq<char>;

/// Relies on `str::to_lowercase`: the result depends on the text alone.
#[verifier::external_body]
fn lowercase(s: &str) -> (r: String)
    ensures
        r@ == lowercase_of(s@),
{
    s.to_lowercase()
}

/// Relies on base64's `Engine::encode` with the `STANDARD` engine: padded
/// output of four characters for each started group of three bytes. It
/// panics only where that length overflows, which `requires` leaves out.
#[verifier::external_body]
fn base64_encode(b: &[u8]) -> (r: String)
    requires
        b@.len() < usize::MAX / 2,
    ensures
        r@ == base64_of(b@),
        r@.len() == 4 * ((b@.len() + 2) / 3),
{
    base64::Engine::encode(&base64::engine::general_purpose::STANDARD, b)
}

proof fn lemma_insert_entry_at(s: Seq<DirectoryEntryView>, e: DirectoryEntryView, k: int)
    requires
        0 <= k <= s.len(),
        forall|a: int| 0 <= a < k ==> !listed_before(e, #[trigger] s[a]),
        k < s.len() ==> listed_before(e, s[k]),
    ensures
        insert_entry(s, e) == s.insert(k, e),
    decreases k,
{
    if k == 0 {
        assert(insert_entry(s, e) =~= s.insert(k, e));
    } else {
        assert(!listed_before(e, s[0]));
        let r = s.drop_first();
        assert forall|a: int| 0 <= a < k - 1 implies !listed_before(e, #[trigger] r[a]) by {
            assert(r[a] == s[a + 1]);
        }
        lemma_insert_entry_at(r, e, k - 1);
        assert(insert_entry(s, e) =~= s.insert(k, e));
    }
}

/// The file panels.
pub struct FileService;

impl FileService {
    /// Accepts the extension of an image file, in any case; refuses a
    /// missing extension and any other one, each with its message.
    pub fn check_image_extension(extension: Option<&str>) -> (r: Result<(), String>)
        ensures
            extension is None ==> (r matches Err(m) && m@ == "ファイル拡張子が不明です"@),
            extension matches Some(e) ==> if image_extension(lowercase_of(e@)) {
                r is Ok
            } else {
                (r matches Err(m) && m@ == "サポートされていないファイル形式です"@)
            },
    {
        match extension {
            None => Err(String::from_str("ファイル拡張子が不明です")),
            Some(e) => {
                let low = lowercase(e);
                if low == String::from_str("jpg") || low == String::from_str("jpeg") || low
                    == String::from_str("png") || low == String::from_str("gif") || low
                    == String::from_str("webp") {
                    Ok(())
                } else {
                    Err(String::from_str("サポートされていないファイル形式です"))
                }
            },
        }
    }

    /// The contents of an image file as base64 text.
    pub fn encode_image_data(bytes: &Vec<u8>) -> (r: String)
        requires
            bytes@.len() < usize::MAX / 2,
        ensures
            r@ == base64_of(bytes@),
            r@.len() == 4 * ((bytes@.len() + 2) / 3),
    {
        base64_encode(bytes.as_slice())
    }

    /// The entries of a directory: directories first, then files, each by
    /// name, entries that compare equal in their original order.
    pub fn sort_entries(entries: Vec<DirectoryEntry>) -> (r: Vec<DirectoryEntry>)
        ensures
            entry_views(r@) == listing_order(entry_views(entries@)),
    {
        let mut r: Vec<DirectoryEntry> = Vec::new();
        let mut i: usize = 0;
        assert(entry_views(entries@).subrange(0, 0) =~= Seq::<DirectoryEntryView>::empty());
        while i < entries.len()
            invariant
                i <= entries.len(),
                entry_views(r@) == listing_order(entry_views(entries@).subrange(0, i as int)),
            decreases entries.len() - i,
        {
            let e = entries[i].copy();
            let ghost sv = entry_views(r@);
            let mut k: usize = 0;
            while k < r.len() && !FileService::comes_before(&e, &r[k])
                invariant
                    k <= r.len(),
                    sv == entry_views(r@),
                    forall|a: int| 0 <= a < k ==> !listed_before(e@, #[trigger] sv[a]),
                decreases r.len() - k,
            {
                k = k + 1;
            }
            proof {
                lemma_insert_entry_at(sv, e@, k as int);
                let w = entry_views(entries@).subrange(0, i + 1);
                assert(w.drop_last() =~= entry_views(entries@).subrange(0, i as int));
                assert(w.last() == e@);
            }
            r.insert(k, e);
            assert(entry_views(r@) =~= sv.insert(k as int, e@));
            i = i + 1;
        }
        assert(entry_views(entries@).subrange(0, entries.len() as int) =~= entry_views(entries@));
        r
    }

    fn comes_before(a: &DirectoryEntry, b: &DirectoryEntry) -> (r: bool)
        ensures
            r == listed_before(a@, b@),
    {
        if a.is_dir != b.is_dir {
            a.is_dir
        } else {
            crate::text::text_less(a.name.as_str(), b.name.as_str())
        }
    }
}

} // verus!
