use vstd::prelude::*;

verus! {

/// How long an archive stays downloadable after its upload: three days, in milliseconds.
pub const TTL_MILLIS: i64 = 3 * 24 * 60 * 60 * 1000;

/// The number of downloads an upload allows unless it is created with another limit.
pub const DEFAULT_MAX_DOWNLOADS: u8 = 5;

/// Mathematical model of an [`UploadRecord`].
pub struct RecordView {
    /// Upload time, in milliseconds since the Unix epoch.
    pub uploaded: int,
    /// Location of the backing archive.
    pub file: Seq<char>,
    pub downloads: nat,
    pub max_downloads: nat,
}

impl RecordView {
    /// Whether the upload time lies less than one TTL before `now`.
    pub open spec fn fresh(self, now: int) -> bool {
        now - self.uploaded < TTL_MILLIS
    }

    /// A record may be downloaded while it is fresh and has downloads left.
    pub open spec fn eligible(self, now: int) -> bool {
        self.fresh(now) && self.downloads < self.max_downloads
    }

    pub open spec fn remaining(self) -> int {
        self.max_downloads - self.downloads
    }

    pub open spec fn within_limit(self) -> bool {
        self.downloads <= self.max_downloads
    }

    /// The same record after one more download.
    pub open spec fn downloaded_once(self) -> RecordView {
        RecordView { downloads: self.downloads + 1, ..self }
    }
}

/// Metadata of one stored archive.
#[derive(Debug)]
pub struct UploadRecord {
    uploaded: i64,
    file: String,
    downloads: u8,
    max_downloads: u8,
}

impl View for UploadRecord {
    type V = RecordView;

    closed spec fn view(&self) -> RecordView {
        RecordView {
            uploaded: self.uploaded as int,
            file: self.file@,
            downloads: self.downloads as nat,
            max_downloads: self.max_downloads as nat,
        }
    }
}

/// Relies on chrono's `Utc::now` and `DateTime::timestamp_millis`: the current
/// time as milliseconds since the Unix epoch. Nothing is promised of the value.
#[verifier::external_body]
pub(crate) fn now_millis() -> i64 {
    chrono::Utc::now().timestamp_millis()
}

impl UploadRecord {
    #[verifier::type_invariant]
    spec fn within_limit(self) -> bool {
        self.downloads <= self.max_downloads
    }

    /// A fresh record for the archive at `file`, uploaded now, with the default limit.
    pub fn new(file: String) -> (r: Self)
        ensures
            r@.file == file@,
            r@.downloads == 0,
            r@.max_downloads == DEFAULT_MAX_DOWNLOADS,
    {
        let now = now_millis();
        Self::created(file, now, DEFAULT_MAX_DOWNLOADS)
    }

    /// A record for the archive at `file`, uploaded at `uploaded`, allowing
    /// `max_downloads` downloads, none of them used yet.
    pub fn created(file: String, uploaded: i64, max_downloads: u8) -> (r: Self)
        ensures
            r@ == (RecordView {
                uploaded: uploaded as int,
                file: file@,
                downloads: 0,
                max_downloads: max_downloads as nat,
            }),
    {
        UploadRecord { uploaded, file, downloads: 0, max_downloads }
    }

    /// A record read back from storage, with `downloads` already counted.
    pub fn restored(file: String, uploaded: i64, downloads: u8, max_downloads: u8) -> (r: Self)
        requires
            downloads <= max_downloads,
        ensures
            r@ == (RecordView {
                uploaded: uploaded as int,
                file: file@,
                downloads: downloads as nat,
                max_downloads: max_downloads as nat,
            }),
    {
        UploadRecord { uploaded, file, downloads, max_downloads }
    }

    pub fn uploaded(&self) -> (r: i64)
        ensures
            r == self@.uploaded,
    {
        self.uploaded
    }

    pub fn file(&self) -> (r: &String)
        ensures
            r@ == self@.file,
    {
        &self.file
    }

    /// The downloads counted so far, which never exceed the limit.
    pub fn downloads(&self) -> (r: u8)
        ensures
            r == self@.downloads,
            self@.within_limit(),
    {
        proof {
            use_type_invariant(self);
        }
        self.downloads
    }

    pub fn max_downloads(&self) -> (r: u8)
        ensures
            r == self@.max_downloads,
    {
        self.max_downloads
    }

    /// Whether the record may be downloaded at time `now`.
    pub fn can_be_downloaded_at(&self, now: i64) -> (r: bool)
        ensures
            r == self@.eligible(now as int),
    {
        let age = now as i128 - self.uploaded as i128;
        age < TTL_MILLIS as i128 && self.downloads < self.max_downloads
    }

    /// Whether the record may be downloaded now, by the system clock.
    pub fn can_be_downloaded(&self) -> (r: bool)
        ensures
            r ==> self@.downloads < self@.max_downloads,
            self@.downloads >= self@.max_downloads ==> !r,
    {
        let now = now_millis();
        self.can_be_downloaded_at(now)
    }

    pub fn downloads_remaining(&self) -> (r: u8)
        ensures
            r == self@.remaining(),
            self@.within_limit(),
    {
        proof {
            use_type_invariant(self);
        }
        self.max_downloads - self.downloads
    }

    /// The same record with one more download counted, if one is left.
    pub fn with_download(&self) -> (r: Option<Self>)
        ensures
            r is Some <==> self@.downloads < self@.max_downloads,
            r matches Some(n) ==> n@ == self@.downloaded_once(),
    {
        if self.downloads < self.max_downloads {
            Some(
                UploadRecord {
                    uploaded: self.uploaded,
                    file: self.file.clone(),
                    downloads: self.downloads + 1,
                    max_downloads: self.max_downloads,
                },
            )
        } else {
            None
        }
    }

    /// A copy of the record.
    pub fn duplicate(&self) -> (r: Self)
        ensures
            r@ == self@,
    {
        proof {
            use_type_invariant(self);
        }
        UploadRecord {
            uploaded: self.uploaded,
            file: self.file.clone(),
            downloads: self.downloads,
            max_downloads: self.max_downloads,
        }
    }
}

impl Default for UploadRecord {
    /// A record uploaded now, with no archive path and the default limit.
    fn default() -> (r: Self)
        ensures
            r@.file.len() == 0,
            r@.downloads == 0,
            r@.max_downloads == DEFAULT_MAX_DOWNLOADS,
    {
        Self::new(String::new())
    }
}

} // verus!
