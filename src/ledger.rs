use vstd::prelude::*;

use crate::record::{now_millis, RecordView, UploadRecord};
use crate::util::{get_random_name, is_alphanumeric};

verus! {

/// Length of the tokens that name uploads.
pub const TOKEN_LEN: usize = 10;

/// How many random tokens an insertion draws before it gives up.
pub const TOKEN_ATTEMPTS: usize = 16;

/// Whether no stored token has the length of a drawn token, so that no draw
/// can collide.
pub open spec fn no_token_of_drawn_length(m: LedgerMap) -> bool {
    forall|k: Seq<char>| #[trigger] m.contains_key(k) ==> k.len() != TOKEN_LEN
}

/// Model of a ledger: token → record.
pub type LedgerMap = Map<Seq<char>, RecordView>;

/// Whether the record under `t` exists and may be downloaded at `now`.
pub open spec fn live(m: LedgerMap, t: Seq<char>, now: int) -> bool {
    m.contains_key(t) && m[t].eligible(now)
}

/// The ledger after a download of `t` at `now`: the count goes up by one when
/// the record is live, and the record is dropped otherwise.
pub open spec fn after_download(m: LedgerMap, t: Seq<char>, now: int) -> LedgerMap {
    if live(m, t, now) {
        m.insert(t, m[t].downloaded_once())
    } else {
        m.remove(t)
    }
}

/// The records of `m` that are still eligible at `now`.
pub open spec fn eligible_part(m: LedgerMap, now: int) -> LedgerMap {
    m.restrict(Set::new(|k: Seq<char>| live(m, k, now)))
}

/// One operation on a ledger, with the time it runs at where time matters.
pub enum LedgerOp {
    Insert(Seq<char>, RecordView),
    Get(Seq<char>, int),
    Download(Seq<char>, int),
    Remove(Seq<char>),
    Sweep(int),
}

/// The ledger after one operation.
pub open spec fn apply(m: LedgerMap, op: LedgerOp) -> LedgerMap {
    match op {
        LedgerOp::Insert(k, r) => if m.contains_key(k) {
            m
        } else {
            m.insert(k, r)
        },
        LedgerOp::Get(k, now) => if live(m, k, now) {
            m
        } else {
            m.remove(k)
        },
        LedgerOp::Download(k, now) => after_download(m, k, now),
        LedgerOp::Remove(k) => m.remove(k),
        LedgerOp::Sweep(now) => eligible_part(m, now),
    }
}

/// Every record of the map counts at most as many downloads as it allows.
pub open spec fn all_within_limit(m: LedgerMap) -> bool {
    forall|k: Seq<char>| #[trigger] m.contains_key(k) ==> m[k].within_limit()
}

/// `rows` lists exactly the records of `m`, each token once.
pub open spec fn describes(rows: Seq<(String, UploadRecord)>, m: LedgerMap) -> bool {
    &&& forall|i: int, j: int|
        0 <= i < j < rows.len() ==> #[trigger] rows[i].0@ != #[trigger] rows[j].0@
    &&& forall|i: int|
        0 <= i < rows.len() ==> {
            &&& m.contains_key(#[trigger] rows[i].0@)
            &&& m[rows[i].0@] == rows[i].1@
        }
    &&& forall|k: Seq<char>| #[trigger]
        m.contains_key(k) ==> exists|i: int| 0 <= i < rows.len() && #[trigger] rows[i].0@ == k
}

/// The records of `m` that may no longer be downloaded at `now`.
pub open spec fn expired_part(m: LedgerMap, now: int) -> LedgerMap {
    m.restrict(Set::new(|k: Seq<char>| m.contains_key(k) && !m[k].eligible(now)))
}

/// Appending a row for a new token keeps a listing exact.
proof fn lemma_describes_push(
    rows: Seq<(String, UploadRecord)>,
    m: LedgerMap,
    row: (String, UploadRecord),
)
    requires
        describes(rows, m),
        !m.contains_key(row.0@),
    ensures
        describes(rows.push(row), m.insert(row.0@, row.1@)),
{
    let n = rows.push(row);
    let key = row.0@;
    let m2 = m.insert(key, row.1@);
    assert(n[rows.len() as int] == row);
    assert forall|a: int, b: int| 0 <= a < b < n.len() implies #[trigger] n[a].0@
        != #[trigger] n[b].0@ by {
        assert(n[a] == rows[a]);
        if b < rows.len() {
            assert(n[b] == rows[b]);
        } else {
            assert(m.contains_key(rows[a].0@));
        }
    }
    assert forall|a: int| 0 <= a < n.len() implies {
        &&& m2.contains_key(#[trigger] n[a].0@)
        &&& m2[n[a].0@] == n[a].1@
    } by {
        if a < rows.len() {
            assert(n[a] == rows[a]);
            assert(m.contains_key(rows[a].0@));
        }
    }
    assert forall|k: Seq<char>| #[trigger] m2.contains_key(k) implies exists|a: int|
        0 <= a < n.len() && #[trigger] n[a].0@ == k by {
        if k == key {
            assert(n[rows.len() as int].0@ == k);
        } else {
            let a = choose|a: int| 0 <= a < rows.len() && #[trigger] rows[a].0@ == k;
            assert(n[a] == rows[a]);
        }
    }
}

/// The outcome of an access that found no downloadable record.
///
/// Callers see one answer for unknown and for expired tokens. When the
/// access itself evicted an expired record, `evicted` holds it, so that its
/// archive can be deleted.
#[derive(Debug)]
pub struct NotFound {
    pub evicted: Option<UploadRecord>,
}

/// The mapping from tokens to upload records.
///
/// The entries are kept in a `Vec`, with tokens unique: vstd specifies
/// `HashMap` only for keys it has a key model for, which excludes `String`,
/// and its `StringHashMap` cannot be walked, which listing and sweeping need.
///
/// Tokens are unique. Every operation that checks a record and then changes
/// it is one call on `&mut Ledger`, so a single lock around the ledger makes
/// each of them atomic.
pub struct Ledger {
    entries: Vec<(String, UploadRecord)>,
    model: Ghost<LedgerMap>,
}

impl View for Ledger {
    type V = LedgerMap;

    closed spec fn view(&self) -> LedgerMap {
        self.model@
    }
}

impl Ledger {
    pub closed spec fn wf(&self) -> bool {
        &&& describes(self.entries@, self.model@)
        &&& all_within_limit(self.model@)
    }

    /// An empty ledger.
    pub fn new() -> (r: Self)
        ensures
            r.wf(),
            r@ == LedgerMap::empty(),
    {
        Ledger { entries: Vec::new(), model: Ghost(LedgerMap::empty()) }
    }

    /// The number of records.
    pub fn len(&self) -> (r: usize)
        requires
            self.wf(),
        ensures
            r == self@.len(),
    {
        proof {
            self.lemma_len();
        }
        self.entries.len()
    }

    proof fn lemma_len(&self)
        requires
            self.wf(),
        ensures
            self@.dom().finite(),
            self@.len() == self.entries@.len(),
    {
        let keys = self.entries@.map_values(|e: (String, UploadRecord)| e.0@);
        assert(keys.no_duplicates()) by {
            assert forall|i: int, j: int| 0 <= i < keys.len() && 0 <= j < keys.len() && i != j
                implies keys[i] != keys[j] by {
                if i < j {
                    assert(self.entries@[i].0@ != self.entries@[j].0@);
                } else {
                    assert(self.entries@[j].0@ != self.entries@[i].0@);
                }
            }
        }
        assert(keys.to_set() =~= self@.dom()) by {
            assert forall|k: Seq<char>| keys.to_set().contains(k) implies self@.dom().contains(k) by {
                let i = choose|i: int| 0 <= i < keys.len() && keys[i] == k;
                assert(self.entries@[i].0@ == k);
            }
            assert forall|k: Seq<char>| self@.dom().contains(k) implies keys.to_set().contains(k) by {
                let i = choose|i: int| 0 <= i < self.entries@.len() && #[trigger] self.entries@[i].0@ == k;
                assert(keys[i] == k);
            }
        }
        keys.unique_seq_to_set();
    }

    /// The position of `token` among the entries, if it is stored.
    fn find(&self, token: &String) -> (r: Option<usize>)
        requires
            self.wf(),
        ensures
            match r {
                Some(i) => i < self.entries@.len() && self.entries@[i as int].0@ == token@,
                None => !self@.contains_key(token@),
            },
    {
        let mut i: usize = 0;
        while i < self.entries.len()
            invariant
                self.wf(),
                i <= self.entries@.len(),
                forall|j: int| 0 <= j < i ==> #[trigger] self.entries@[j].0@ != token@,
            decreases self.entries@.len() - i,
        {
            if self.entries[i].0 == *token {
                return Some(i);
            }
            i = i + 1;
        }
        None
    }

    /// Removes the entry at position `i` and hands it back.
    fn take_at(&mut self, i: usize) -> (r: (String, UploadRecord))
        requires
            old(self).wf(),
            i < old(self).entries@.len(),
        ensures
            final(self).wf(),
            r.0@ == old(self).entries@[i as int].0@,
            old(self)@.contains_key(r.0@),
            r.1@ == old(self)@[r.0@],
            final(self)@ == old(self)@.remove(r.0@),
            final(self).entries@.len() == old(self).entries@.len() - 1,
            forall|j: int| 0 <= j < i ==> #[trigger] final(self).entries@[j] == old(self).entries@[j],
    {
        let ghost old_entries = self.entries@;
        let ghost key = self.entries@[i as int].0@;
        let r = self.entries.remove(i);
        self.model = Ghost(self.model@.remove(key));
        proof {
            let n = self.entries@;
            assert forall|a: int, b: int| 0 <= a < b < n.len() implies #[trigger] n[a].0@
                != #[trigger] n[b].0@ by {
                let oa = if a < i { a } else { a + 1 };
                let ob = if b < i { b } else { b + 1 };
                assert(n[a] == old_entries[oa]);
                assert(n[b] == old_entries[ob]);
                assert(old_entries[oa].0@ != old_entries[ob].0@);
            }
            assert forall|a: int| 0 <= a < n.len() implies {
                &&& self.model@.contains_key(#[trigger] n[a].0@)
                &&& self.model@[n[a].0@] == n[a].1@
            } by {
                let oa = if a < i { a } else { a + 1 };
                assert(n[a] == old_entries[oa]);
                if oa < i {
                    assert(old_entries[oa].0@ != old_entries[i as int].0@);
                } else {
                    assert(old_entries[i as int].0@ != old_entries[oa].0@);
                }
            }
            assert forall|k: Seq<char>| #[trigger] self.model@.contains_key(k) implies exists|a: int|
                0 <= a < n.len() && #[trigger] n[a].0@ == k by {
                let oa = choose|oa: int| 0 <= oa < old_entries.len() && #[trigger] old_entries[oa].0@ == k;
                assert(oa != i);
                let a = if oa < i { oa } else { oa - 1 };
                assert(n[a] == old_entries[oa]);
            }
        }
        r
    }

    /// Replaces the record at position `i`.
    fn replace_at(&mut self, i: usize, record: UploadRecord)
        requires
            old(self).wf(),
            i < old(self).entries@.len(),
            record@.within_limit(),
        ensures
            final(self).wf(),
            final(self)@ == old(self)@.insert(old(self).entries@[i as int].0@, record@),
    {
        let ghost old_entries = self.entries@;
        let ghost key = self.entries@[i as int].0@;
        let token = self.entries[i].0.clone();
        self.entries.set(i, (token, record));
        self.model = Ghost(self.model@.insert(key, record@));
        proof {
            let n = self.entries@;
            assert forall|a: int, b: int| 0 <= a < b < n.len() implies #[trigger] n[a].0@
                != #[trigger] n[b].0@ by {
                assert(n[a].0@ == old_entries[a].0@);
                assert(n[b].0@ == old_entries[b].0@);
            }
            assert forall|a: int| 0 <= a < n.len() implies {
                &&& self.model@.contains_key(#[trigger] n[a].0@)
                &&& self.model@[n[a].0@] == n[a].1@
            } by {
                if a != i {
                    assert(n[a] == old_entries[a]);
                    if a < i {
                        assert(old_entries[a].0@ != old_entries[i as int].0@);
                    } else {
                        assert(old_entries[i as int].0@ != old_entries[a].0@);
                    }
                }
            }
            assert forall|k: Seq<char>| #[trigger] self.model@.contains_key(k) implies exists|a: int|
                0 <= a < n.len() && #[trigger] n[a].0@ == k by {
                if k == key {
                    assert(n[i as int].0@ == k);
                } else {
                    let a = choose|a: int| 0 <= a < old_entries.len() && #[trigger] old_entries[a].0@ == k;
                    assert(n[a].0@ == old_entries[a].0@);
                }
            }
        }
    }

    /// Adds `record` under `token`. When the token is already taken nothing
    /// changes and the record is handed back.
    pub fn insert(&mut self, token: String, record: UploadRecord) -> (r: Result<(), UploadRecord>)
        requires
            old(self).wf(),
        ensures
            final(self).wf(),
            final(self)@ == apply(old(self)@, LedgerOp::Insert(token@, record@)),
            r is Ok <==> !old(self)@.contains_key(token@),
            r is Ok ==> final(self)@ == old(self)@.insert(token@, record@),
            r matches Err(back) ==> back@ == record@ && final(self)@ == old(self)@,
    {
        if let Some(_) = self.find(&token) {
            return Err(record);
        }
        let _ = record.downloads();
        let ghost key = token@;
        let ghost value = record@;
        proof {
            lemma_describes_push(self.entries@, self.model@, (token, record));
        }
        self.entries.push((token, record));
        self.model = Ghost(self.model@.insert(key, value));
        Ok(())
    }

    /// Whether a record is stored under `token`.
    pub fn contains(&self, token: &String) -> (r: bool)
        requires
            self.wf(),
        ensures
            r == self@.contains_key(token@),
    {
        self.find(token).is_some()
    }

    /// The record under `token` if it may be downloaded at `now`. A stored
    /// record that may not is removed, and the caller sees not-found.
    pub fn get_at(&mut self, token: &String, now: i64) -> (r: Result<UploadRecord, NotFound>)
        requires
            old(self).wf(),
        ensures
            final(self).wf(),
            final(self)@ == apply(old(self)@, LedgerOp::Get(token@, now as int)),
            r is Ok <==> live(old(self)@, token@, now as int),
            r matches Ok(rec) ==> rec@ == old(self)@[token@] && final(self)@ == old(self)@,
            r matches Err(e) ==> {
                &&& final(self)@ == old(self)@.remove(token@)
                &&& (e.evicted is Some <==> old(self)@.contains_key(token@))
                &&& (e.evicted matches Some(x) ==> x@ == old(self)@[token@])
            },
    {
        match self.find(token) {
            None => Err(NotFound { evicted: None }),
            Some(i) => {
                if self.entries[i].1.can_be_downloaded_at(now) {
                    Ok(self.entries[i].1.duplicate())
                } else {
                    let (_, record) = self.take_at(i);
                    Err(NotFound { evicted: Some(record) })
                }
            },
        }
    }

    /// Counts one download of `token` at `now` and returns the downloads left.
    /// A record that may not be downloaded is removed, and the caller sees
    /// not-found.
    pub fn mark_downloaded_at(&mut self, token: &String, now: i64) -> (r: Result<u8, NotFound>)
        requires
            old(self).wf(),
        ensures
            final(self).wf(),
            final(self)@ == apply(old(self)@, LedgerOp::Download(token@, now as int)),
            final(self)@ == after_download(old(self)@, token@, now as int),
            r is Ok <==> live(old(self)@, token@, now as int),
            r matches Ok(left) ==> left == old(self)@[token@].remaining() - 1,
            r matches Err(e) ==> {
                &&& (e.evicted is Some <==> old(self)@.contains_key(token@))
                &&& (e.evicted matches Some(x) ==> x@ == old(self)@[token@])
            },
    {
        match self.find(token) {
            None => Err(NotFound { evicted: None }),
            Some(i) => {
                if self.entries[i].1.can_be_downloaded_at(now) {
                    match self.entries[i].1.with_download() {
                        Some(next) => {
                            let left = next.downloads_remaining();
                            self.replace_at(i, next);
                            Ok(left)
                        },
                        None => {
                            let (_, record) = self.take_at(i);
                            Err(NotFound { evicted: Some(record) })
                        },
                    }
                } else {
                    let (_, record) = self.take_at(i);
                    Err(NotFound { evicted: Some(record) })
                }
            },
        }
    }

    /// Removes the record under `token` and hands it back, so that its archive
    /// can be deleted.
    pub fn remove(&mut self, token: &String) -> (r: Result<UploadRecord, NotFound>)
        requires
            old(self).wf(),
        ensures
            final(self).wf(),
            final(self)@ == apply(old(self)@, LedgerOp::Remove(token@)),
            final(self)@ == old(self)@.remove(token@),
            r is Ok <==> old(self)@.contains_key(token@),
            r matches Ok(rec) ==> rec@ == old(self)@[token@],
            r matches Err(e) ==> e.evicted is None,
    {
        match self.find(token) {
            None => Err(NotFound { evicted: None }),
            Some(i) => {
                let (_, record) = self.take_at(i);
                Ok(record)
            },
        }
    }

    /// The downloads left under `token`, without any change to the ledger.
    pub fn remaining(&self, token: &String) -> (r: Option<u8>)
        requires
            self.wf(),
        ensures
            r is Some <==> self@.contains_key(token@),
            r matches Some(n) ==> n == self@[token@].remaining(),
    {
        match self.find(token) {
            None => None,
            Some(i) => Some(self.entries[i].1.downloads_remaining()),
        }
    }

    /// Stores `record` under a fresh random token and returns the token. When
    /// every token drawn is already taken, nothing changes and the record is
    /// handed back.
    pub fn register(&mut self, record: UploadRecord) -> (r: Result<String, UploadRecord>)
        requires
            old(self).wf(),
        ensures
            final(self).wf(),
            r matches Ok(t) ==> {
                &&& !old(self)@.contains_key(t@)
                &&& final(self)@ == old(self)@.insert(t@, record@)
                &&& t@.len() == TOKEN_LEN
                &&& forall|i: int| 0 <= i < t@.len() ==> is_alphanumeric(#[trigger] t@[i])
            },
            r matches Err(back) ==> back@ == record@ && final(self)@ == old(self)@,
            no_token_of_drawn_length(old(self)@) ==> r is Ok,
    {
        let mut pending = record;
        let mut attempt: usize = 0;
        while attempt < TOKEN_ATTEMPTS
            invariant
                self.wf(),
                self@ == old(self)@,
                pending@ == record@,
                no_token_of_drawn_length(old(self)@) ==> attempt == 0,
            decreases TOKEN_ATTEMPTS - attempt,
        {
            let token = get_random_name(TOKEN_LEN);
            match self.insert(token.clone(), pending) {
                Ok(()) => {
                    return Ok(token);
                },
                Err(back) => {
                    pending = back;
                },
            }
            attempt = attempt + 1;
        }
        Err(pending)
    }

    /// A copy of every token with its record.
    pub fn list(&self) -> (r: Vec<(String, UploadRecord)>)
        requires
            self.wf(),
        ensures
            describes(r@, self@),
    {
        let mut rows: Vec<(String, UploadRecord)> = Vec::new();
        let mut i: usize = 0;
        while i < self.entries.len()
            invariant
                self.wf(),
                i <= self.entries@.len(),
                rows@.len() == i,
                forall|j: int|
                    0 <= j < i ==> #[trigger] rows@[j].0@ == self.entries@[j].0@
                        && rows@[j].1@ == self.entries@[j].1@,
            decreases self.entries@.len() - i,
        {
            let token = self.entries[i].0.clone();
            let record = self.entries[i].1.duplicate();
            rows.push((token, record));
            i = i + 1;
        }
        proof {
            let e = self.entries@;
            assert forall|a: int, b: int| 0 <= a < b < rows@.len() implies #[trigger] rows@[a].0@
                != #[trigger] rows@[b].0@ by {
                assert(e[a].0@ != e[b].0@);
            }
            assert forall|a: int| 0 <= a < rows@.len() implies {
                &&& self@.contains_key(#[trigger] rows@[a].0@)
                &&& self@[rows@[a].0@] == rows@[a].1@
            } by {
                assert(self@.contains_key(e[a].0@));
            }
            assert forall|k: Seq<char>| #[trigger] self@.contains_key(k) implies exists|a: int|
                0 <= a < rows@.len() && #[trigger] rows@[a].0@ == k by {
                let a = choose|a: int| 0 <= a < e.len() && #[trigger] e[a].0@ == k;
                assert(rows@[a].0@ == k);
            }
        }
        rows
    }

    /// Removes every record that may not be downloaded at `now` and returns
    /// them, so that their archives can be deleted.
    pub fn sweep_at(&mut self, now: i64) -> (r: Vec<(String, UploadRecord)>)
        requires
            old(self).wf(),
        ensures
            final(self).wf(),
            final(self)@ == apply(old(self)@, LedgerOp::Sweep(now as int)),
            final(self)@ == eligible_part(old(self)@, now as int),
            describes(r@, expired_part(old(self)@, now as int)),
    {
        let ghost start = self@;
        let mut evicted: Vec<(String, UploadRecord)> = Vec::new();
        let mut i: usize = 0;
        while i < self.entries.len()
            invariant
                self.wf(),
                i <= self.entries@.len(),
                forall|j: int| 0 <= j < i ==> (#[trigger] self.entries@[j]).1@.eligible(now as int),
                forall|k: Seq<char>| #[trigger]
                    self@.contains_key(k) ==> start.contains_key(k) && self@[k] == start[k],
                forall|k: Seq<char>| #[trigger]
                    start.contains_key(k) && !self@.contains_key(k) ==> !start[k].eligible(
                        now as int,
                    ),
                describes(evicted@, start.remove_keys(self@.dom())),
            decreases self.entries@.len() - i,
        {
            if self.entries[i].1.can_be_downloaded_at(now) {
                i = i + 1;
            } else {
                let ghost before = self@;
                let row = self.take_at(i);
                proof {
                    let gone = start.remove_keys(before.dom());
                    assert(!gone.contains_key(row.0@));
                    lemma_describes_push(evicted@, gone, row);
                    assert(gone.insert(row.0@, row.1@) =~= start.remove_keys(self@.dom()));
                }
                evicted.push(row);
            }
        }
        proof {
            let e = self.entries@;
            assert forall|k: Seq<char>| #[trigger] self@.contains_key(k) implies self@[k].eligible(
                now as int,
            ) by {
                let a = choose|a: int| 0 <= a < e.len() && #[trigger] e[a].0@ == k;
                assert(e[a].1@.eligible(now as int));
            }
            assert(self@ =~= eligible_part(start, now as int));
            assert(start.remove_keys(self@.dom()) =~= expired_part(start, now as int));
        }
        evicted
    }

    /// [`Ledger::get_at`] at the current time.
    pub fn get(&mut self, token: &String) -> (r: Result<UploadRecord, NotFound>)
        requires
            old(self).wf(),
        ensures
            final(self).wf(),
            exists|now: int| #![auto]
                {
                    &&& (r is Ok <==> live(old(self)@, token@, now))
                    &&& (r is Ok ==> final(self)@ == old(self)@)
                    &&& (r is Err ==> final(self)@ == old(self)@.remove(token@))
                },
            r matches Ok(rec) ==> rec@ == old(self)@[token@],
    {
        let now = now_millis();
        self.get_at(token, now)
    }

    /// [`Ledger::mark_downloaded_at`] at the current time.
    pub fn mark_downloaded(&mut self, token: &String) -> (r: Result<u8, NotFound>)
        requires
            old(self).wf(),
        ensures
            final(self).wf(),
            exists|now: int| #![auto]
                {
                    &&& final(self)@ == after_download(old(self)@, token@, now)
                    &&& (r is Ok <==> live(old(self)@, token@, now))
                },
            r matches Ok(left) ==> left == old(self)@[token@].remaining() - 1,
    {
        let now = now_millis();
        self.mark_downloaded_at(token, now)
    }

    /// [`Ledger::sweep_at`] at the current time.
    pub fn sweep(&mut self) -> (r: Vec<(String, UploadRecord)>)
        requires
            old(self).wf(),
        ensures
            final(self).wf(),
            exists|now: int| #![auto]
                final(self)@ == eligible_part(old(self)@, now) && describes(
                    r@,
                    expired_part(old(self)@, now),
                ),
    {
        let now = now_millis();
        self.sweep_at(now)
    }
}

/// Every record in a well-formed ledger counts at most as many downloads as
/// it allows. (Each operation on a ledger keeps it well-formed: that is in
/// its own contract.)
pub proof fn records_within_limit(l: &Ledger)
    requires
        l.wf(),
    ensures
        all_within_limit(l@),
        forall|k: Seq<char>| #[trigger] l@.contains_key(k) ==> 0 <= l@[k].downloads <= l@[k].max_downloads,
{
}

} // verus!
