use vstd::prelude::*;

use crate::ledger::{no_token_of_drawn_length, Ledger, TOKEN_LEN};
use crate::util::is_alphanumeric;
use crate::record::{RecordView, UploadRecord, DEFAULT_MAX_DOWNLOADS};

verus! {

/// What sanitize-filename-reader-friendly makes of a file name.
pub uninterp spec fn sanitized(name: Seq<char>) -> Seq<char>;

/// Relies on `sanitize_filename_reader_friendly::sanitize`: its result depends
/// on the name alone.
#[verifier::external_body]
fn sanitize_name(name: &str) -> (r: String)
    ensures
        r@ == sanitized(name@),
{
    sanitize_filename_reader_friendly::sanitize(name)
}

pub open spec fn is_separator(c: char) -> bool {
    c == '/' || c == '\\'
}

/// A name that is exactly one path component: not empty, not `.` or `..`,
/// and free of path separators.
pub open spec fn single_component(n: Seq<char>) -> bool {
    &&& n.len() > 0
    &&& n != seq!['.']
    &&& n != seq!['.', '.']
    &&& forall|i: int| 0 <= i < n.len() ==> !is_separator(#[trigger] n[i])
}

/// The archive entry name for an uploaded file name, if it is acceptable:
/// the name must be one path component, and so must its sanitized form.
pub open spec fn entry_name_of(raw: Seq<char>) -> Option<Seq<char>> {
    if single_component(raw) && single_component(sanitized(raw)) {
        Some(sanitized(raw))
    } else {
        None
    }
}

/// Where the archive named `name` is stored under `root`.
pub open spec fn archive_path_of(root: Seq<char>, name: Seq<char>) -> Seq<char> {
    root + seq!['/'] + name + seq!['.', 'z', 'i', 'p']
}

/// Why an upload failed.
#[derive(Debug, PartialEq, Eq, Structural)]
pub enum UploadError {
    /// A part's file name is unsafe: the client's fault.
    InvalidName,
    /// Reading the upload or writing the archive failed.
    Io,
    /// No unused token could be drawn for the archive.
    NoToken,
}

/// Whether `s` is one path component.
pub fn is_single_component(s: &str) -> (r: bool)
    ensures
        r == single_component(s@),
{
    let n = s.unicode_len();
    if n == 0 {
        return false;
    }
    let mut i: usize = 0;
    while i < n
        invariant
            n == s@.len(),
            i <= n,
            forall|j: int| 0 <= j < i ==> !is_separator(#[trigger] s@[j]),
        decreases n - i,
    {
        let c = s.get_char(i);
        if c == '/' || c == '\\' {
            return false;
        }
        i = i + 1;
    }
    if n == 1 && s.get_char(0) == '.' {
        assert(s@ =~= seq!['.']);
        return false;
    }
    if n == 2 && s.get_char(0) == '.' && s.get_char(1) == '.' {
        assert(s@ =~= seq!['.', '.']);
        return false;
    }
    proof {
        if n == 1 {
            assert(s@[0] != seq!['.'][0]);
        }
        if n == 2 {
            assert(s@[0] != seq!['.', '.'][0] || s@[1] != seq!['.', '.'][1]);
        }
    }
    true
}

/// Accepts a sanitized name when it is still one path component.
pub fn accept_sanitized(cleaned: String) -> (r: Result<String, UploadError>)
    ensures
        r matches Ok(n) ==> n@ == cleaned@,
        r is Ok <==> single_component(cleaned@),
        r matches Err(e) ==> e is InvalidName,
{
    if is_single_component(cleaned.as_str()) {
        Ok(cleaned)
    } else {
        Err(UploadError::InvalidName)
    }
}

/// The archive entry name for the uploaded file name `raw`. A name with a
/// path separator, or one that is `.` or `..` (before or after sanitizing),
/// is refused as a client error.
pub fn entry_name(raw: &str) -> (r: Result<String, UploadError>)
    ensures
        r is Ok <==> entry_name_of(raw@) is Some,
        r matches Ok(n) ==> Some(n@) == entry_name_of(raw@),
        r matches Err(e) ==> e is InvalidName,
{
    if !is_single_component(raw) {
        return Err(UploadError::InvalidName);
    }
    let cleaned = sanitize_name(raw);
    accept_sanitized(cleaned)
}

/// Where the archive named `name` is stored under the directory `root`.
pub fn archive_path(root: &str, name: &str) -> (r: String)
    ensures
        r@ == archive_path_of(root@, name@),
{
    let mut path = root.to_owned();
    path.append("/");
    path.append(name);
    path.append(".zip");
    proof {
        reveal_strlit("/");
        reveal_strlit(".zip");
    }
    path
}

/// The stage an upload has reached.
#[derive(Debug, PartialEq, Eq, Structural)]
pub enum Phase {
    /// Parts are being streamed into the archive.
    Streaming,
    /// The upload failed; the partial archive is to be deleted.
    Aborted,
    /// The archive is complete and flushed.
    Sealed,
    /// The archive is in the ledger.
    Committed,
}

/// Model of an [`ArchiveBuilder`].
pub struct BuilderView {
    pub path: Seq<char>,
    pub entries: Seq<Seq<char>>,
    pub phase: Phase,
}

/// The builder after one part whose file name is `file_name`.
pub open spec fn after_part(b: BuilderView, file_name: Option<Seq<char>>) -> BuilderView {
    if b.phase != Phase::Streaming {
        b
    } else {
        match file_name {
            None => b,
            Some(raw) => match entry_name_of(raw) {
                Some(n) => BuilderView { entries: b.entries.push(n), ..b },
                None => BuilderView { phase: Phase::Aborted, ..b },
            },
        }
    }
}

/// The builder after parts with these file names, in order.
pub open spec fn after_parts(b: BuilderView, names: Seq<Option<Seq<char>>>) -> BuilderView
    decreases names.len(),
{
    if names.len() == 0 {
        b
    } else {
        after_parts(after_part(b, names[0]), names.drop_first())
    }
}

/// The entry names that parts with these file names add, in order, when
/// every name is acceptable: fields without a file add none.
pub open spec fn entries_of(names: Seq<Option<Seq<char>>>) -> Seq<Seq<char>>
    decreases names.len(),
{
    if names.len() == 0 {
        Seq::empty()
    } else {
        let rest = entries_of(names.drop_first());
        match names[0] {
            Some(raw) => seq![sanitized(raw)] + rest,
            None => rest,
        }
    }
}

/// Every file name among the parts is acceptable.
pub open spec fn all_acceptable(names: Seq<Option<Seq<char>>>) -> bool {
    forall|i: int|
        0 <= i < names.len() ==> (#[trigger] names[i] matches Some(raw) ==> entry_name_of(
            raw,
        ) is Some)
}

/// An upload whose file names are all acceptable keeps streaming and
/// records, in order, one entry per file part, named by its sanitized name;
/// one unacceptable name aborts it for good.
pub proof fn parts_make_entries(b: BuilderView, names: Seq<Option<Seq<char>>>)
    requires
        b.phase == Phase::Streaming,
    ensures
        all_acceptable(names) ==> after_parts(b, names).phase == Phase::Streaming
            && after_parts(b, names).entries == b.entries + entries_of(names),
        !all_acceptable(names) ==> after_parts(b, names).phase == Phase::Aborted,
        after_parts(b, names).path == b.path,
    decreases names.len(),
{
    if names.len() > 0 {
        let rest = names.drop_first();
        let next = after_part(b, names[0]);
        assert forall|i: int| 0 <= i < rest.len() implies #[trigger] rest[i] == names[i + 1] by {}
        match names[0] {
            Some(raw) if entry_name_of(raw) is None => {
                assert(!all_acceptable(names)) by {
                    assert(names[0] matches Some(r) && entry_name_of(r) is None);
                }
                lemma_aborted_stays(next, rest);
            },
            _ => {
                parts_make_entries(next, rest);
                if all_acceptable(names) {
                    assert(all_acceptable(rest)) by {
                        assert forall|i: int| 0 <= i < rest.len() implies (#[trigger] rest[i] matches Some(
                            raw,
                        ) ==> entry_name_of(raw) is Some) by {
                            assert(names[i + 1] == rest[i]);
                        }
                    }
                    assert(b.entries + entries_of(names) =~= next.entries + entries_of(rest));
                } else {
                    assert(!all_acceptable(rest)) by {
                        let j = choose|j: int| 0 <= j < names.len() && !(#[trigger] names[j] matches Some(
                            raw,
                        ) ==> entry_name_of(raw) is Some);
                        assert(j != 0);
                        assert(rest[j - 1] == names[j]);
                    }
                }
            },
        }
    }
}

proof fn lemma_aborted_stays(b: BuilderView, names: Seq<Option<Seq<char>>>)
    requires
        b.phase == Phase::Aborted,
    ensures
        after_parts(b, names) == b,
    decreases names.len(),
{
    if names.len() > 0 {
        lemma_aborted_stays(after_part(b, names[0]), names.drop_first());
    }
}

/// The decision for one part of an upload.
#[derive(Debug)]
pub enum PartAction {
    /// The part carries no file: skip it.
    Skip,
    /// Stream the part into a new archive entry of this name.
    Write(String),
    /// Stop the upload: delete the partial archive and report the error.
    Abort(UploadError),
}

/// The decisions of one upload, which streams named parts into one archive.
///
/// The caller does the I/O: it creates the archive at [`ArchiveBuilder::path`],
/// asks [`ArchiveBuilder::part`] about each part, reports a failed write with
/// [`ArchiveBuilder::fail`] and the finished archive with
/// [`ArchiveBuilder::seal`], and then calls [`ArchiveBuilder::commit`]. A
/// record reaches the ledger only through `commit`, and only for a sealed
/// archive.
#[derive(Debug)]
pub struct ArchiveBuilder {
    path: String,
    entries: Vec<String>,
    phase: Phase,
}

impl View for ArchiveBuilder {
    type V = BuilderView;

    closed spec fn view(&self) -> BuilderView {
        BuilderView {
            path: self.path@,
            entries: self.entries@.map_values(|e: String| e@),
            phase: self.phase,
        }
    }
}

impl ArchiveBuilder {
    /// A builder for the archive named `name` under `root`.
    pub fn new(root: &str, name: &str) -> (r: Self)
        ensures
            r@.path == archive_path_of(root@, name@),
            r@.entries == Seq::<Seq<char>>::empty(),
            r@.phase == Phase::Streaming,
    {
        let path = archive_path(root, name);
        let b = ArchiveBuilder { path, entries: Vec::new(), phase: Phase::Streaming };
        assert(b@.entries =~= Seq::<Seq<char>>::empty());
        b
    }

    /// A builder under `root` for an archive with a fresh random name.
    pub fn create(root: &str) -> (r: Self)
        ensures
            exists|name: Seq<char>| #[trigger]
                archive_path_of(root@, name) == r@.path && name.len() == TOKEN_LEN && forall|i: int|
                    0 <= i < name.len() ==> is_alphanumeric(#[trigger] name[i]),
            r@.entries == Seq::<Seq<char>>::empty(),
            r@.phase == Phase::Streaming,
    {
        let name = crate::util::get_random_name(TOKEN_LEN);
        Self::new(root, name.as_str())
    }

    /// Where the archive is written.
    pub fn path(&self) -> (r: &String)
        ensures
            r@ == self@.path,
    {
        &self.path
    }

    /// The names of the entries written so far, in order.
    pub fn entries(&self) -> (r: &Vec<String>)
        ensures
            r@.map_values(|e: String| e@) == self@.entries,
    {
        &self.entries
    }

    pub fn phase(&self) -> (r: Phase)
        ensures
            r == self@.phase,
    {
        match self.phase {
            Phase::Streaming => Phase::Streaming,
            Phase::Aborted => Phase::Aborted,
            Phase::Sealed => Phase::Sealed,
            Phase::Committed => Phase::Committed,
        }
    }

    /// Decides what to do with the next part, whose file name is `file_name`
    /// (`None` for a field that is not a file). An unacceptable name aborts
    /// the upload before anything more is written. After the upload has left
    /// the streaming phase every part aborts it, and nothing changes.
    pub fn part(&mut self, file_name: Option<&str>) -> (r: PartAction)
        ensures
            final(self)@.path == old(self)@.path,
            final(self)@ == after_part(
                old(self)@,
                match file_name {
                    Some(raw) => Some(raw@),
                    None => None,
                },
            ),
            old(self)@.phase != Phase::Streaming ==> r is Abort && final(self)@ == old(self)@,
            old(self)@.phase == Phase::Streaming ==> match file_name {
                None => r is Skip && final(self)@ == old(self)@,
                Some(raw) => match entry_name_of(raw@) {
                    Some(n) => {
                        &&& r matches PartAction::Write(w) && w@ == n
                        &&& final(self)@.entries == old(self)@.entries.push(n)
                        &&& final(self)@.phase == Phase::Streaming
                    },
                    None => {
                        &&& r matches PartAction::Abort(e) && e is InvalidName
                        &&& final(self)@.entries == old(self)@.entries
                        &&& final(self)@.phase == Phase::Aborted
                    },
                },
            },
    {
        if self.phase != Phase::Streaming {
            return PartAction::Abort(UploadError::Io);
        }
        match file_name {
            None => PartAction::Skip,
            Some(raw) => match entry_name(raw) {
                Ok(name) => {
                    let ghost before = self.entries@;
                    self.entries.push(name.clone());
                    assert(self.entries@.map_values(|e: String| e@) =~= before.map_values(
                        |e: String| e@,
                    ).push(name@));
                    PartAction::Write(name)
                },
                Err(e) => {
                    self.phase = Phase::Aborted;
                    PartAction::Abort(e)
                },
            },
        }
    }

    /// Records that reading or writing failed: an upload that was not yet in
    /// the ledger is aborted.
    pub fn fail(&mut self)
        ensures
            final(self)@.path == old(self)@.path,
            final(self)@.entries == old(self)@.entries,
            final(self)@.phase == if old(self)@.phase == Phase::Committed {
                Phase::Committed
            } else {
                Phase::Aborted
            },
    {
        if self.phase != Phase::Committed {
            self.phase = Phase::Aborted;
        }
    }

    /// Records that the archive is complete: its directory is written and
    /// flushed. Only a streaming upload becomes sealed.
    pub fn seal(&mut self)
        ensures
            final(self)@.path == old(self)@.path,
            final(self)@.entries == old(self)@.entries,
            final(self)@.phase == if old(self)@.phase == Phase::Streaming {
                Phase::Sealed
            } else {
                old(self)@.phase
            },
    {
        if self.phase == Phase::Streaming {
            self.phase = Phase::Sealed;
        }
    }

    /// Hands a sealed archive, uploaded at `uploaded`, to the ledger under a
    /// fresh token and returns the token. Any other upload leaves the ledger
    /// as it is. When no unused token can be drawn the upload is aborted.
    pub fn commit(&mut self, ledger: &mut Ledger, uploaded: i64) -> (r: Result<String, UploadError>)
        requires
            old(ledger).wf(),
        ensures
            final(ledger).wf(),
            final(self)@.path == old(self)@.path,
            final(self)@.entries == old(self)@.entries,
            old(self)@.phase != Phase::Sealed ==> r is Err && final(ledger)@ == old(ledger)@
                && final(self)@.phase == old(self)@.phase,
            r matches Ok(t) ==> {
                &&& old(self)@.phase == Phase::Sealed
                &&& final(self)@.phase == Phase::Committed
                &&& !old(ledger)@.contains_key(t@)
                &&& final(ledger)@ == old(ledger)@.insert(
                    t@,
                    RecordView {
                        uploaded: uploaded as int,
                        file: old(self)@.path,
                        downloads: 0,
                        max_downloads: DEFAULT_MAX_DOWNLOADS as nat,
                    },
                )
            },
            old(self)@.phase == Phase::Sealed && no_token_of_drawn_length(old(ledger)@) ==> r is Ok,
            r matches Err(e) ==> final(ledger)@ == old(ledger)@ && (old(self)@.phase
                == Phase::Sealed ==> e is NoToken && final(self)@.phase == Phase::Aborted),
    {
        if self.phase != Phase::Sealed {
            return Err(UploadError::Io);
        }
        let record = UploadRecord::created(self.path.clone(), uploaded, DEFAULT_MAX_DOWNLOADS);
        match ledger.register(record) {
            Ok(token) => {
                self.phase = Phase::Committed;
                Ok(token)
            },
            Err(_) => {
                self.phase = Phase::Aborted;
                Err(UploadError::NoToken)
            },
        }
    }
}

} // verus!
