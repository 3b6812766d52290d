use vstd::prelude::*;

use crate::error::io_other;
use crate::ledger::{all_within_limit, describes, Ledger, LedgerMap};
use crate::record::{RecordView, UploadRecord};

verus! {

/// One record as stored in a snapshot: token, upload time, archive path,
/// downloads counted, downloads allowed.
pub type SnapshotRow = (String, i64, String, u8, u8);

/// Model of a [`SnapshotRow`].
pub type RowView = (Seq<char>, i64, Seq<char>, u8, u8);

#[verifier::external_type_specification]
#[verifier::external_body]
pub struct ExBincodeErrorKind(bincode::ErrorKind);

/// The bytes that bincode writes for a list of rows.
pub uninterp spec fn bincode_bytes(rows: Seq<(Seq<char>, i64, Seq<char>, u8, u8)>) -> Seq<u8>;

/// The rows that bincode reads from some bytes, if it reads any.
pub uninterp spec fn bincode_rows(bytes: Seq<u8>) -> Option<Seq<(Seq<char>, i64, Seq<char>, u8, u8)>>;

/// Relies on `bincode::serialize`: its output depends on the rows alone; with
/// the default options (no size limit) and a `Vec`, whose length is known, it
/// cannot fail; and `bincode::deserialize`, with the same options, reads the
/// same rows back.
#[verifier::external_body]
fn serialize_rows(rows: &Vec<SnapshotRow>) -> (r: Result<Vec<u8>, bincode::Error>)
    ensures
        r is Ok,
        r matches Ok(b) ==> b@ == bincode_bytes(rows.deep_view()) && bincode_rows(b@) == Some(
            rows.deep_view(),
        ),
{
    bincode::serialize(rows)
}

/// Relies on `bincode::deserialize`: whether it reads rows, and which, depends
/// on the bytes alone.
#[verifier::external_body]
fn deserialize_rows(bytes: &[u8]) -> (r: Result<Vec<SnapshotRow>, bincode::Error>)
    ensures
        match r {
            Ok(rows) => bincode_rows(bytes@) == Some(rows.deep_view()),
            Err(_) => bincode_rows(bytes@) is None,
        },
{
    bincode::deserialize(bytes)
}

/// The record that a row stands for.
pub open spec fn row_record(row: RowView) -> RecordView {
    RecordView {
        uploaded: row.1 as int,
        file: row.2,
        downloads: row.3 as nat,
        max_downloads: row.4 as nat,
    }
}

/// Each token appears in one row at most.
pub open spec fn distinct_tokens(rows: Seq<RowView>) -> bool {
    forall|i: int, j: int| 0 <= i < j < rows.len() ==> #[trigger] rows[i].0 != #[trigger] rows[j].0
}

/// Rows that can be loaded: tokens distinct, counts within their limits.
pub open spec fn rows_valid(rows: Seq<RowView>) -> bool {
    &&& distinct_tokens(rows)
    &&& forall|i: int| 0 <= i < rows.len() ==> (#[trigger] rows[i]).3 <= rows[i].4
}

/// `rows` lists exactly the records of `m`, each token once.
pub open spec fn rows_describe(rows: Seq<RowView>, m: LedgerMap) -> bool {
    &&& distinct_tokens(rows)
    &&& forall|i: int|
        0 <= i < rows.len() ==> {
            &&& m.contains_key((#[trigger] rows[i]).0)
            &&& m[rows[i].0] == row_record(rows[i])
        }
    &&& forall|k: Seq<char>| #[trigger]
        m.contains_key(k) ==> exists|i: int| 0 <= i < rows.len() && (#[trigger] rows[i]).0 == k
}

/// The ledger that valid rows load into.
pub open spec fn loaded_from(bytes: Seq<u8>, m: LedgerMap) -> bool {
    match bincode_rows(bytes) {
        Some(rows) => if rows_valid(rows) {
            rows_describe(rows, m)
        } else {
            m == LedgerMap::empty()
        },
        None => m == LedgerMap::empty(),
    }
}

/// The snapshot rows of every record of `ledger`.
pub fn snapshot_rows(ledger: &Ledger) -> (r: Vec<SnapshotRow>)
    requires
        ledger.wf(),
    ensures
        rows_describe(r.deep_view(), ledger@),
{
    let listed = ledger.list();
    let mut rows: Vec<SnapshotRow> = Vec::new();
    let mut i: usize = 0;
    while i < listed.len()
        invariant
            i <= listed@.len(),
            rows@.len() == i,
            forall|j: int|
                0 <= j < i ==> (#[trigger] rows.deep_view()[j]).0 == listed@[j].0@
                    && row_record(rows.deep_view()[j]) == listed@[j].1@,
        decreases listed@.len() - i,
    {
        let token = listed[i].0.clone();
        let record = &listed[i].1;
        let row: SnapshotRow = (
            token,
            record.uploaded(),
            record.file().clone(),
            record.downloads(),
            record.max_downloads(),
        );
        let ghost before = rows.deep_view();
        rows.push(row);
        proof {
            assert(rows.deep_view() =~= before.push(row.deep_view()));
        }
        i = i + 1;
    }
    proof {
        let d = rows.deep_view();
        let m = ledger@;
        assert(d.len() == listed@.len());
        assert forall|a: int, b: int| 0 <= a < b < d.len() implies #[trigger] d[a].0 != #[trigger] d[b].0 by {
            assert(listed@[a].0@ != listed@[b].0@);
        }
        assert forall|a: int| 0 <= a < d.len() implies {
            &&& m.contains_key((#[trigger] d[a]).0)
            &&& m[d[a].0] == row_record(d[a])
        } by {
            assert(m.contains_key(listed@[a].0@));
        }
        assert forall|k: Seq<char>| #[trigger] m.contains_key(k) implies exists|a: int|
            0 <= a < d.len() && (#[trigger] d[a]).0 == k by {
            let a = choose|a: int| 0 <= a < listed@.len() && #[trigger] listed@[a].0@ == k;
            assert(d[a].0 == k);
        }
    }
    rows
}

/// The ledger that `rows` describe, if they are valid.
pub fn ledger_from_rows(rows: &Vec<SnapshotRow>) -> (r: Option<Ledger>)
    ensures
        r is Some <==> rows_valid(rows.deep_view()),
        r matches Some(l) ==> l.wf() && rows_describe(rows.deep_view(), l@),
{
    let ghost d = rows.deep_view();
    let mut ledger = Ledger::new();
    let mut i: usize = 0;
    while i < rows.len()
        invariant
            d == rows.deep_view(),
            i <= d.len(),
            ledger.wf(),
            rows_valid(d.take(i as int)),
            rows_describe(d.take(i as int), ledger@),
        decreases d.len() - i,
    {
        let row = &rows[i];
        let ghost rv = d[i as int];
        assert(row.deep_view() == rv);
        if row.3 > row.4 {
            proof {
                assert(d[i as int].3 > d[i as int].4);
            }
            return None;
        }
        let record = UploadRecord::restored(row.2.clone(), row.1, row.3, row.4);
        let ghost before = ledger@;
        match ledger.insert(row.0.clone(), record) {
            Ok(()) => {
                proof {
                    let p = d.take(i as int);
                    let n = d.take(i + 1);
                    assert(n =~= p.push(rv));
                    assert forall|a: int, b: int| 0 <= a < b < n.len() implies #[trigger] n[a].0
                        != #[trigger] n[b].0 by {
                        if b == i {
                            assert(before.contains_key(p[a].0));
                        } else {
                            assert(p[a].0 != p[b].0);
                        }
                    }
                    assert forall|a: int| 0 <= a < n.len() implies (#[trigger] n[a]).3 <= n[a].4 by {
                        if a < i {
                            assert(p[a] == n[a]);
                        }
                    }
                    assert forall|a: int| 0 <= a < n.len() implies {
                        &&& ledger@.contains_key((#[trigger] n[a]).0)
                        &&& ledger@[n[a].0] == row_record(n[a])
                    } by {
                        if a < i {
                            assert(p[a] == n[a]);
                            assert(before.contains_key(p[a].0));
                        }
                    }
                    assert forall|k: Seq<char>| #[trigger] ledger@.contains_key(k) implies exists|a: int|
                        0 <= a < n.len() && (#[trigger] n[a]).0 == k by {
                        if k == rv.0 {
                            assert(n[i as int].0 == k);
                        } else {
                            let a = choose|a: int| 0 <= a < p.len() && (#[trigger] p[a]).0 == k;
                            assert(n[a] == p[a]);
                        }
                    }
                }
            },
            Err(_) => {
                proof {
                    let p = d.take(i as int);
                    let a = choose|a: int| 0 <= a < p.len() && (#[trigger] p[a]).0 == rv.0;
                    assert(d[a] == p[a]);
                    assert(d[a].0 == d[i as int].0);
                }
                return None;
            },
        }
        i = i + 1;
    }
    proof {
        assert(d.take(d.len() as int) =~= d);
    }
    Some(ledger)
}

impl Ledger {
    /// The snapshot bytes of the ledger: its rows, encoded by bincode, which
    /// always succeeds. The `Result` lets writers of the snapshot pass it on
    /// with the I/O errors of the write.
    pub fn encode_snapshot(&self) -> (r: Result<Vec<u8>, std::io::Error>)
        requires
            self.wf(),
        ensures
            r matches Ok(b) && exists|rows: Seq<RowView>| #![auto]
                {
                    &&& rows_describe(rows, self@)
                    &&& b@ == bincode_bytes(rows)
                    &&& bincode_rows(b@) == Some(rows)
                },
    {
        let rows = snapshot_rows(self);
        match serialize_rows(&rows) {
            Ok(bytes) => Ok(bytes),
            Err(e) => Err(io_other(&e.to_string())),
        }
    }

    /// The ledger stored in snapshot bytes. Bytes that do not decode, and rows
    /// that repeat a token or count more downloads than they allow, give an
    /// empty ledger: a snapshot is a cache, never a reason to fail.
    pub fn load_snapshot(bytes: &[u8]) -> (r: Ledger)
        ensures
            r.wf(),
            loaded_from(bytes@, r@),
    {
        match deserialize_rows(bytes) {
            Ok(rows) => match ledger_from_rows(&rows) {
                Some(ledger) => ledger,
                None => Ledger::new(),
            },
            Err(_) => Ledger::new(),
        }
    }
}

/// Two ledgers that the same rows describe are equal.
proof fn lemma_rows_determine_ledger(rows: Seq<RowView>, a: LedgerMap, b: LedgerMap)
    requires
        rows_describe(rows, a),
        rows_describe(rows, b),
    ensures
        a == b,
{
    assert forall|k: Seq<char>| a.contains_key(k) <==> b.contains_key(k) by {
        if a.contains_key(k) {
            let i = choose|i: int| 0 <= i < rows.len() && (#[trigger] rows[i]).0 == k;
            assert(b.contains_key(rows[i].0));
        }
        if b.contains_key(k) {
            let i = choose|i: int| 0 <= i < rows.len() && (#[trigger] rows[i]).0 == k;
            assert(a.contains_key(rows[i].0));
        }
    }
    assert forall|k: Seq<char>| a.contains_key(k) implies a[k] == b[k] by {
        let i = choose|i: int| 0 <= i < rows.len() && (#[trigger] rows[i]).0 == k;
        assert(a[rows[i].0] == row_record(rows[i]));
    }
    assert(a =~= b);
}

/// Saving then loading a ledger gives it back: the rows saved from a
/// well-formed ledger are valid, so loading keeps them, and the loaded
/// ledger has exactly the saved tokens, each with the same record.
pub proof fn snapshot_round_trip(rows: Seq<RowView>, saved: LedgerMap, loaded: LedgerMap)
    requires
        all_within_limit(saved),
        rows_describe(rows, saved),
        rows_describe(rows, loaded),
    ensures
        rows_valid(rows),
        loaded == saved,
{
    assert forall|i: int| 0 <= i < rows.len() implies (#[trigger] rows[i]).3 <= rows[i].4 by {
        assert(saved.contains_key(rows[i].0));
    }
    lemma_rows_determine_ledger(rows, saved, loaded);
}

/// Saving then loading a ledger gives it back, bytes included: bytes that
/// bincode reads as rows describing a well-formed ledger load as exactly that
/// ledger. [`Ledger::encode_snapshot`] promises such rows for its bytes, and
/// [`Ledger::load_snapshot`] promises `loaded_from` for what it returns.
pub proof fn snapshot_bytes_round_trip(
    bytes: Seq<u8>,
    rows: Seq<RowView>,
    saved: LedgerMap,
    loaded: LedgerMap,
)
    requires
        all_within_limit(saved),
        rows_describe(rows, saved),
        bincode_rows(bytes) == Some(rows),
        loaded_from(bytes, loaded),
    ensures
        loaded == saved,
{
    snapshot_round_trip(rows, saved, loaded);
}

} // verus!
