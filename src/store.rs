//! The record store: the local records, the mirror of the server's last known
//! state, and the staging area for the incoming batch of a pass. Each table is
//! held in order; the engine's stages are stated as functions of the tables.
use vstd::prelude::*;
use crate::ServerTimestamp;

verus! {

/// Whether a local record was ever reconciled with the server.
#[derive(Debug, Clone, Copy, PartialEq, Eq, Structural)]
pub enum SyncStatus {
    New,
    Normal,
}

/// The text of an optional string, as seen in contracts.
pub open spec fn opt_text(o: Option<String>) -> Option<Seq<char>> {
    match o {
        Some(s) => Some(s@),
        None => None,
    }
}

/// Copies an optional string.
pub fn copy_text(o: &Option<String>) -> (r: Option<String>)
    ensures
        r == *o,
{
    match o {
        Some(s) => Some(s.clone()),
        None => None,
    }
}

/// A local record: the data of one extension, as JSON object text, or none
/// where it was deleted.
#[derive(Debug)]
pub struct LocalRecord {
    pub ext_id: String,
    pub data: Option<String>,
    pub sync_status: SyncStatus,
    /// Local changes not yet confirmed as uploaded.
    pub change_counter: u64,
}

/// A local record as seen in contracts.
pub struct LocalRow {
    pub ext_id: Seq<char>,
    pub data: Option<Seq<char>>,
    pub sync_status: SyncStatus,
    pub change_counter: int,
}

impl View for LocalRecord {
    type V = LocalRow;

    open spec fn view(&self) -> LocalRow {
        LocalRow {
            ext_id: self.ext_id@,
            data: opt_text(self.data),
            sync_status: self.sync_status,
            change_counter: self.change_counter as int,
        }
    }
}

impl LocalRecord {
    /// A copy of the record.
    pub fn copy(&self) -> (r: LocalRecord)
        ensures
            r == *self,
    {
        LocalRecord {
            ext_id: self.ext_id.clone(),
            data: copy_text(&self.data),
            sync_status: self.sync_status,
            change_counter: self.change_counter,
        }
    }
}

/// A mirror record: what the server last held for an extension.
#[derive(Debug)]
pub struct MirrorRecord {
    pub guid: String,
    pub ext_id: String,
    pub server_modified: i64,
    pub data: Option<String>,
}

/// A mirror record as seen in contracts.
pub struct MirrorRow {
    pub guid: Seq<char>,
    pub ext_id: Seq<char>,
    pub server_modified: i64,
    pub data: Option<Seq<char>>,
}

impl View for MirrorRecord {
    type V = MirrorRow;

    open spec fn view(&self) -> MirrorRow {
        MirrorRow {
            guid: self.guid@,
            ext_id: self.ext_id@,
            server_modified: self.server_modified,
            data: opt_text(self.data),
        }
    }
}

impl MirrorRecord {
    /// A copy of the record.
    pub fn copy(&self) -> (r: MirrorRecord)
        ensures
            r == *self,
    {
        MirrorRecord {
            guid: self.guid.clone(),
            ext_id: self.ext_id.clone(),
            server_modified: self.server_modified,
            data: copy_text(&self.data),
        }
    }
}

/// A staged incoming record, keyed by guid.
#[derive(Debug)]
pub struct StagingRecord {
    pub guid: String,
    pub ext_id: String,
    pub data: Option<String>,
    pub server_modified: i64,
}

/// A staged record as seen in contracts.
pub struct StagingRow {
    pub guid: Seq<char>,
    pub ext_id: Seq<char>,
    pub data: Option<Seq<char>>,
    pub server_modified: i64,
}

impl View for StagingRecord {
    type V = StagingRow;

    open spec fn view(&self) -> StagingRow {
        StagingRow {
            guid: self.guid@,
            ext_id: self.ext_id@,
            data: opt_text(self.data),
            server_modified: self.server_modified,
        }
    }
}

impl StagingRecord {
    /// A copy of the record.
    pub fn copy(&self) -> (r: StagingRecord)
        ensures
            r == *self,
    {
        StagingRecord {
            guid: self.guid.clone(),
            ext_id: self.ext_id.clone(),
            data: copy_text(&self.data),
            server_modified: self.server_modified,
        }
    }
}

/// A record as the server sends and receives it. No data, or `deleted`, is a
/// tombstone.
#[derive(Debug)]
pub struct ServerPayload {
    pub guid: String,
    pub ext_id: String,
    pub data: Option<String>,
    pub deleted: bool,
    pub last_modified: ServerTimestamp,
}

/// A payload as seen in contracts.
pub struct PayloadView {
    pub guid: Seq<char>,
    pub ext_id: Seq<char>,
    pub data: Option<Seq<char>>,
    pub deleted: bool,
    pub last_modified: i64,
}

impl View for ServerPayload {
    type V = PayloadView;

    open spec fn view(&self) -> PayloadView {
        PayloadView {
            guid: self.guid@,
            ext_id: self.ext_id@,
            data: opt_text(self.data),
            deleted: self.deleted,
            last_modified: self.last_modified.0,
        }
    }
}

impl ServerPayload {
    /// A copy of the payload.
    pub fn copy(&self) -> (r: ServerPayload)
        ensures
            r == *self,
    {
        ServerPayload {
            guid: self.guid.clone(),
            ext_id: self.ext_id.clone(),
            data: copy_text(&self.data),
            deleted: self.deleted,
            last_modified: self.last_modified,
        }
    }
}

pub open spec fn local_rows(v: Seq<LocalRecord>) -> Seq<LocalRow> {
    v.map_values(|r: LocalRecord| r@)
}

pub open spec fn mirror_rows(v: Seq<MirrorRecord>) -> Seq<MirrorRow> {
    v.map_values(|r: MirrorRecord| r@)
}

pub open spec fn staging_rows(v: Seq<StagingRecord>) -> Seq<StagingRow> {
    v.map_values(|r: StagingRecord| r@)
}

/// The three tables as seen in contracts.
pub struct StoreView {
    pub local: Seq<LocalRow>,
    pub mirror: Seq<MirrorRow>,
    pub staging: Seq<StagingRow>,
}

/// The first local record of extension `e`, if any.
pub open spec fn find_local(rows: Seq<LocalRow>, e: Seq<char>) -> Option<LocalRow> {
    if exists|i: int|
        0 <= i < rows.len() && #[trigger] rows[i].ext_id == e && forall|j: int|
            0 <= j < i ==> #[trigger] rows[j].ext_id != e {
        let i = choose|i: int|
            0 <= i < rows.len() && #[trigger] rows[i].ext_id == e && forall|j: int|
                0 <= j < i ==> #[trigger] rows[j].ext_id != e;
        Some(rows[i])
    } else {
        None
    }
}

/// The first mirror record with guid `g`, if any.
pub open spec fn mirror_by_guid(rows: Seq<MirrorRow>, g: Seq<char>) -> Option<MirrorRow> {
    if exists|i: int|
        0 <= i < rows.len() && #[trigger] rows[i].guid == g && forall|j: int|
            0 <= j < i ==> #[trigger] rows[j].guid != g {
        let i = choose|i: int|
            0 <= i < rows.len() && #[trigger] rows[i].guid == g && forall|j: int|
                0 <= j < i ==> #[trigger] rows[j].guid != g;
        Some(rows[i])
    } else {
        None
    }
}

/// The first mirror record of extension `e`, if any.
pub open spec fn mirror_by_ext(rows: Seq<MirrorRow>, e: Seq<char>) -> Option<MirrorRow> {
    if exists|i: int|
        0 <= i < rows.len() && #[trigger] rows[i].ext_id == e && forall|j: int|
            0 <= j < i ==> #[trigger] rows[j].ext_id != e {
        let i = choose|i: int|
            0 <= i < rows.len() && #[trigger] rows[i].ext_id == e && forall|j: int|
                0 <= j < i ==> #[trigger] rows[j].ext_id != e;
        Some(rows[i])
    } else {
        None
    }
}

/// Insert-or-replace into the staging area, keyed by guid: the row replaces
/// any with its guid and goes last.
pub open spec fn stage_row(rows: Seq<StagingRow>, r: StagingRow) -> Seq<StagingRow> {
    rows.filter(staging_other_guid(r.guid)).push(r)
}

/// Staging rows with a guid other than `g`.
pub open spec fn staging_other_guid(g: Seq<char>) -> spec_fn(StagingRow) -> bool {
    |x: StagingRow| x.guid != g
}

/// Mirror rows that share neither guid `g` nor extension id `e`.
pub open spec fn mirror_unrelated(g: Seq<char>, e: Seq<char>) -> spec_fn(MirrorRow) -> bool {
    |x: MirrorRow| x.guid != g && x.ext_id != e
}

/// Local rows of an extension other than `e`.
pub open spec fn local_other(e: Seq<char>) -> spec_fn(LocalRow) -> bool {
    |x: LocalRow| x.ext_id != e
}

/// Whether some local row is for extension `e`.
pub open spec fn has_local(rows: Seq<LocalRow>, e: Seq<char>) -> bool {
    exists|i: int| 0 <= i < rows.len() && #[trigger] rows[i].ext_id == e
}

/// How an action changes a local record.
#[derive(Debug, Clone, Copy, PartialEq, Eq, Structural)]
pub enum LocalChange {
    /// No data, and marked as never synced, so the deletion goes out.
    MarkDeleted,
    /// Confirmed upload of the changes counted in `counter`: the count drops
    /// by that much (not below zero) and the record is synced.
    Uploaded { counter: u64 },
}

/// A local row after `c`.
pub open spec fn changed_row(r: LocalRow, c: LocalChange) -> LocalRow {
    match c {
        LocalChange::MarkDeleted => LocalRow { data: None, sync_status: SyncStatus::New, ..r },
        LocalChange::Uploaded { counter } => LocalRow {
            change_counter: if r.change_counter >= counter {
                r.change_counter - counter
            } else {
                0
            },
            sync_status: SyncStatus::Normal,
            ..r
        },
    }
}

/// The local rows after applying `c` to those of extension `e`.
pub open spec fn change_local(rows: Seq<LocalRow>, e: Seq<char>, c: LocalChange) -> Seq<LocalRow> {
    rows.map_values(|r: LocalRow| if r.ext_id == e { changed_row(r, c) } else { r })
}

/// One more change, held at the counter's largest value.
pub open spec fn bumped(c: int) -> int {
    if c < u64::MAX {
        c + 1
    } else {
        c
    }
}

/// A local row that takes data `t` from a sync: synced, and with no change
/// left to upload where `reset`, else with one more.
pub open spec fn taken_row(r: LocalRow, t: Seq<char>, reset: bool) -> LocalRow {
    LocalRow {
        data: Some(t),
        sync_status: SyncStatus::Normal,
        change_counter: if reset {
            0
        } else {
            bumped(r.change_counter)
        },
        ..r
    }
}

/// The local rows after extension `e` takes data `t` from a sync; a record is
/// added where there was none.
pub open spec fn take_local(rows: Seq<LocalRow>, e: Seq<char>, t: Seq<char>, reset: bool) -> Seq<
    LocalRow,
> {
    if has_local(rows, e) {
        rows.map_values(|r: LocalRow| if r.ext_id == e { taken_row(r, t, reset) } else { r })
    } else {
        rows.push(
            taken_row(
                LocalRow {
                    ext_id: e,
                    data: None,
                    sync_status: SyncStatus::New,
                    change_counter: 0,
                },
                t,
                reset,
            ),
        )
    }
}

/// Insert-or-replace into the mirror, where both the guid and the extension
/// id are unique: the row replaces any that shares either and goes last.
pub open spec fn mirror_row_replace(rows: Seq<MirrorRow>, r: MirrorRow) -> Seq<MirrorRow> {
    rows.filter(mirror_unrelated(r.guid, r.ext_id)).push(r)
}

/// Each extension has at most one local record.
pub open spec fn local_unique(rows: Seq<LocalRow>) -> bool {
    forall|i: int, j: int|
        0 <= i < rows.len() && 0 <= j < rows.len() && #[trigger] rows[i].ext_id
            == #[trigger] rows[j].ext_id ==> i == j
}

/// No two elements of `s` share a key.
pub open spec fn unique_by<A, K>(s: Seq<A>, key: spec_fn(A) -> K) -> bool {
    forall|i: int, j: int|
        0 <= i < s.len() && 0 <= j < s.len() && #[trigger] key(s[i]) == #[trigger] key(s[j]) ==> i
            == j
}

/// The key of the local table: the extension id.
pub open spec fn local_key() -> spec_fn(LocalRow) -> Seq<char> {
    |r: LocalRow| r.ext_id
}

/// A key of the mirror: the guid.
pub open spec fn mirror_guid_key() -> spec_fn(MirrorRow) -> Seq<char> {
    |r: MirrorRow| r.guid
}

/// A key of the mirror: the extension id.
pub open spec fn mirror_ext_key() -> spec_fn(MirrorRow) -> Seq<char> {
    |r: MirrorRow| r.ext_id
}

/// The key of the staging area: the guid.
pub open spec fn staging_key() -> spec_fn(StagingRow) -> Seq<char> {
    |r: StagingRow| r.guid
}

impl StoreView {
    /// At most one local record per extension; at most one mirror record per
    /// guid and per extension; at most one staged record per guid.
    pub open spec fn wf(self) -> bool {
        &&& unique_by(self.local, local_key())
        &&& unique_by(self.mirror, mirror_guid_key())
        &&& unique_by(self.mirror, mirror_ext_key())
        &&& unique_by(self.staging, staging_key())
    }
}

/// Keeping some elements keeps keys unique.
pub proof fn lemma_filter_unique<A, K>(s: Seq<A>, key: spec_fn(A) -> K, p: spec_fn(A) -> bool)
    requires
        unique_by(s, key),
    ensures
        unique_by(s.filter(p), key),
    decreases s.len(),
{
    reveal(Seq::filter);
    if s.len() > 0 {
        let d = s.drop_last();
        assert forall|i: int, j: int|
            0 <= i < d.len() && 0 <= j < d.len() && #[trigger] key(d[i]) == #[trigger] key(
                d[j],
            ) implies i == j by {
            assert(d[i] == s[i] && d[j] == s[j]);
        }
        lemma_filter_unique(d, key, p);
        if p(s.last()) {
            let f = d.filter(p);
            assert forall|a: int| 0 <= a < f.len() implies #[trigger] key(f[a]) != key(s.last()) by {
                assert(f.contains(f[a]));
                d.lemma_filter_contains_rev(p, f[a]);
                let j = choose|j: int| 0 <= j < d.len() && d[j] == f[a];
                assert(s[j] == d[j]);
                assert(key(s[j]) == key(s[s.len() - 1]) ==> j == s.len() - 1);
            }
            lemma_push_unique(f, s.last(), key);
        }
    }
}

/// Appending an element with a new key keeps keys unique.
pub proof fn lemma_push_unique<A, K>(s: Seq<A>, x: A, key: spec_fn(A) -> K)
    requires
        unique_by(s, key),
        forall|a: int| 0 <= a < s.len() ==> #[trigger] key(s[a]) != key(x),
    ensures
        unique_by(s.push(x), key),
{
    let t = s.push(x);
    assert forall|i: int, j: int|
        0 <= i < t.len() && 0 <= j < t.len() && #[trigger] key(t[i]) == #[trigger] key(t[j]) implies i
        == j by {
        if i < s.len() {
            assert(t[i] == s[i]);
        }
        if j < s.len() {
            assert(t[j] == s[j]);
        }
    }
}

/// Staging keeps staged guids unique.
pub proof fn lemma_stage_row_wf(rows: Seq<StagingRow>, r: StagingRow)
    requires
        unique_by(rows, staging_key()),
    ensures
        unique_by(stage_row(rows, r), staging_key()),
{
    broadcast use vstd::seq_lib::group_filter_ensures;

    let f = rows.filter(staging_other_guid(r.guid));
    lemma_filter_unique(rows, staging_key(), staging_other_guid(r.guid));
    assert forall|a: int| 0 <= a < f.len() implies #[trigger] staging_key()(f[a]) != staging_key()(r) by {
        assert(staging_other_guid(r.guid)(f[a]));
    }
    lemma_push_unique(f, r, staging_key());
}

/// Replacing a mirror record keeps mirror guids and extension ids unique.
pub proof fn lemma_mirror_replace_wf(rows: Seq<MirrorRow>, r: MirrorRow)
    requires
        unique_by(rows, mirror_guid_key()),
        unique_by(rows, mirror_ext_key()),
    ensures
        unique_by(mirror_row_replace(rows, r), mirror_guid_key()),
        unique_by(mirror_row_replace(rows, r), mirror_ext_key()),
{
    broadcast use vstd::seq_lib::group_filter_ensures;

    let p = mirror_unrelated(r.guid, r.ext_id);
    let f = rows.filter(p);
    lemma_filter_unique(rows, mirror_guid_key(), p);
    lemma_filter_unique(rows, mirror_ext_key(), p);
    assert forall|a: int| 0 <= a < f.len() implies #[trigger] mirror_guid_key()(f[a])
        != mirror_guid_key()(r) by {
        assert(p(f[a]));
    }
    assert forall|a: int| 0 <= a < f.len() implies #[trigger] mirror_ext_key()(f[a])
        != mirror_ext_key()(r) by {
        assert(p(f[a]));
    }
    lemma_push_unique(f, r, mirror_guid_key());
    lemma_push_unique(f, r, mirror_ext_key());
}

/// Changing local records in place keeps extension ids unique.
pub proof fn lemma_change_local_wf(rows: Seq<LocalRow>, e: Seq<char>, c: LocalChange)
    requires
        unique_by(rows, local_key()),
    ensures
        unique_by(change_local(rows, e, c), local_key()),
{
    let t = change_local(rows, e, c);
    assert forall|i: int, j: int|
        0 <= i < t.len() && 0 <= j < t.len() && #[trigger] local_key()(t[i]) == #[trigger] local_key()(
            t[j],
        ) implies i == j by {
        assert(local_key()(t[i]) == local_key()(rows[i]));
        assert(local_key()(t[j]) == local_key()(rows[j]));
    }
}

/// Taking data from a sync keeps extension ids unique.
pub proof fn lemma_take_local_wf(rows: Seq<LocalRow>, e: Seq<char>, t: Seq<char>, reset: bool)
    requires
        unique_by(rows, local_key()),
    ensures
        unique_by(take_local(rows, e, t, reset), local_key()),
{
    let u = take_local(rows, e, t, reset);
    if has_local(rows, e) {
        assert forall|i: int, j: int|
            0 <= i < u.len() && 0 <= j < u.len() && #[trigger] local_key()(u[i])
                == #[trigger] local_key()(u[j]) implies i == j by {
            assert(local_key()(u[i]) == local_key()(rows[i]));
            assert(local_key()(u[j]) == local_key()(rows[j]));
        }
    } else {
        let x = taken_row(
            LocalRow { ext_id: e, data: None, sync_status: SyncStatus::New, change_counter: 0 },
            t,
            reset,
        );
        assert forall|a: int| 0 <= a < rows.len() implies #[trigger] local_key()(rows[a])
            != local_key()(x) by {
            assert(rows[a].ext_id != e);
        }
        lemma_push_unique(rows, x, local_key());
    }
}

/// Removing the records of an extension and adding one keeps extension ids
/// unique.
pub proof fn lemma_put_local_wf(rows: Seq<LocalRow>, l: LocalRow)
    requires
        unique_by(rows, local_key()),
    ensures
        unique_by(rows.filter(local_other(l.ext_id)), local_key()),
        unique_by(rows.filter(local_other(l.ext_id)).push(l), local_key()),
{
    broadcast use vstd::seq_lib::group_filter_ensures;

    let f = rows.filter(local_other(l.ext_id));
    lemma_filter_unique(rows, local_key(), local_other(l.ext_id));
    assert forall|a: int| 0 <= a < f.len() implies #[trigger] local_key()(f[a]) != local_key()(l) by {
        assert(local_other(l.ext_id)(f[a]));
    }
    lemma_push_unique(f, l, local_key());
}

/// The record store.
#[derive(Debug)]
pub struct SyncStore {
    local: Vec<LocalRecord>,
    mirror: Vec<MirrorRecord>,
    staging: Vec<StagingRecord>,
}

impl View for SyncStore {
    type V = StoreView;

    closed spec fn view(&self) -> StoreView {
        StoreView {
            local: local_rows(self.local@),
            mirror: mirror_rows(self.mirror@),
            staging: staging_rows(self.staging@),
        }
    }
}

impl SyncStore {
    /// An empty store.
    pub fn new() -> (r: SyncStore)
        ensures
            r@.local.len() == 0,
            r@.mirror.len() == 0,
            r@.staging.len() == 0,
            r@.wf(),
    {
        SyncStore { local: Vec::new(), mirror: Vec::new(), staging: Vec::new() }
    }
}

impl SyncStore {
    /// A copy of the whole store.
    pub fn copy(&self) -> (r: SyncStore)
        ensures
            r@ == self@,
    {
        let mut local: Vec<LocalRecord> = Vec::new();
        let mut i: usize = 0;
        while i < self.local.len()
            invariant
                i <= self.local.len(),
                local@ == self.local@.take(i as int),
            decreases self.local.len() - i,
        {
            local.push(self.local[i].copy());
            assert(self.local@.take(i as int + 1) =~= self.local@.take(i as int).push(self.local@[i as int]));
            i = i + 1;
        }
        let mut mirror: Vec<MirrorRecord> = Vec::new();
        let mut i: usize = 0;
        while i < self.mirror.len()
            invariant
                i <= self.mirror.len(),
                mirror@ == self.mirror@.take(i as int),
            decreases self.mirror.len() - i,
        {
            mirror.push(self.mirror[i].copy());
            assert(self.mirror@.take(i as int + 1) =~= self.mirror@.take(i as int).push(self.mirror@[i as int]));
            i = i + 1;
        }
        let mut staging: Vec<StagingRecord> = Vec::new();
        let mut i: usize = 0;
        while i < self.staging.len()
            invariant
                i <= self.staging.len(),
                staging@ == self.staging@.take(i as int),
            decreases self.staging.len() - i,
        {
            staging.push(self.staging[i].copy());
            assert(self.staging@.take(i as int + 1) =~= self.staging@.take(i as int).push(self.staging@[i as int]));
            i = i + 1;
        }
        assert(local@ =~= self.local@);
        assert(mirror@ =~= self.mirror@);
        assert(staging@ =~= self.staging@);
        SyncStore { local, mirror, staging }
    }

    /// The number of local records.
    pub fn local_len(&self) -> (r: usize)
        ensures
            r == self@.local.len(),
    {
        self.local.len()
    }

    /// Local record `i`.
    pub fn local_at(&self, i: usize) -> (r: &LocalRecord)
        requires
            i < self@.local.len(),
        ensures
            r@ == self@.local[i as int],
    {
        &self.local[i]
    }

    /// The number of mirror records.
    pub fn mirror_len(&self) -> (r: usize)
        ensures
            r == self@.mirror.len(),
    {
        self.mirror.len()
    }

    /// Mirror record `i`.
    pub fn mirror_at(&self, i: usize) -> (r: &MirrorRecord)
        requires
            i < self@.mirror.len(),
        ensures
            r@ == self@.mirror[i as int],
    {
        &self.mirror[i]
    }

    /// The number of staged records.
    pub fn staging_len(&self) -> (r: usize)
        ensures
            r == self@.staging.len(),
    {
        self.staging.len()
    }

    /// Staged record `i`.
    pub fn staging_at(&self, i: usize) -> (r: &StagingRecord)
        requires
            i < self@.staging.len(),
        ensures
            r@ == self@.staging[i as int],
    {
        &self.staging[i]
    }

    /// The first local record of extension `e`.
    pub fn find_local(&self, e: &String) -> (r: Option<&LocalRecord>)
        ensures
            match r {
                Some(x) => find_local(self@.local, e@) == Some(x@),
                None => find_local(self@.local, e@) is None,
            },
    {
        let ghost rows = self@.local;
        let mut i: usize = 0;
        while i < self.local.len()
            invariant
                rows == local_rows(self.local@),
                i <= self.local.len(),
                forall|j: int| 0 <= j < i ==> #[trigger] rows[j].ext_id != e@,
            decreases self.local.len() - i,
        {
            if self.local[i].ext_id == *e {
                assert(rows[i as int].ext_id == e@);
                return Some(&self.local[i]);
            }
            assert(rows[i as int].ext_id != e@);
            i = i + 1;
        }
        None
    }

    /// The first mirror record with guid `g`.
    pub fn mirror_by_guid(&self, g: &String) -> (r: Option<&MirrorRecord>)
        ensures
            match r {
                Some(x) => mirror_by_guid(self@.mirror, g@) == Some(x@),
                None => mirror_by_guid(self@.mirror, g@) is None,
            },
    {
        let ghost rows = self@.mirror;
        let mut i: usize = 0;
        while i < self.mirror.len()
            invariant
                rows == mirror_rows(self.mirror@),
                i <= self.mirror.len(),
                forall|j: int| 0 <= j < i ==> #[trigger] rows[j].guid != g@,
            decreases self.mirror.len() - i,
        {
            if self.mirror[i].guid == *g {
                assert(rows[i as int].guid == g@);
                return Some(&self.mirror[i]);
            }
            assert(rows[i as int].guid != g@);
            i = i + 1;
        }
        None
    }

    /// The first mirror record of extension `e`.
    pub fn mirror_by_ext(&self, e: &String) -> (r: Option<&MirrorRecord>)
        ensures
            match r {
                Some(x) => mirror_by_ext(self@.mirror, e@) == Some(x@),
                None => mirror_by_ext(self@.mirror, e@) is None,
            },
    {
        let ghost rows = self@.mirror;
        let mut i: usize = 0;
        while i < self.mirror.len()
            invariant
                rows == mirror_rows(self.mirror@),
                i <= self.mirror.len(),
                forall|j: int| 0 <= j < i ==> #[trigger] rows[j].ext_id != e@,
            decreases self.mirror.len() - i,
        {
            if self.mirror[i].ext_id == *e {
                assert(rows[i as int].ext_id == e@);
                return Some(&self.mirror[i]);
            }
            assert(rows[i as int].ext_id != e@);
            i = i + 1;
        }
        None
    }
}

impl SyncStore {
    /// Insert-or-replace of a staged record, keyed by guid.
    pub fn stage(&mut self, row: StagingRecord)
        ensures
            final(self)@ == (StoreView { staging: stage_row(old(self)@.staging, row@), ..old(self)@ }),
            old(self)@.wf() ==> final(self)@.wf(),
    {
        let ghost rows = old(self)@.staging;
        let ghost pred = staging_other_guid(row.guid@);
        let mut kept: Vec<StagingRecord> = Vec::new();
        let mut i: usize = 0;
        while i < self.staging.len()
            invariant
                rows == staging_rows(self.staging@),
                pred == staging_other_guid(row.guid@),
                i <= self.staging.len(),
                staging_rows(kept@) == rows.take(i as int).filter(pred),
            decreases self.staging.len() - i,
        {
            let x = &self.staging[i];
            assert(rows.take(i as int + 1) =~= rows.take(i as int).push(x@));
            proof { rows.take(i as int).lemma_filter_push(x@, pred); }
            if x.guid != row.guid {
                let ghost before = kept@;
                kept.push(x.copy());
                assert(staging_rows(kept@) =~= staging_rows(before).push(x@));
            }
            i = i + 1;
        }
        assert(rows.take(rows.len() as int) =~= rows);
        let ghost before = kept@;
        kept.push(row);
        assert(staging_rows(kept@) =~= staging_rows(before).push(kept@.last()@));
        self.staging = kept;
        proof {
            if old(self)@.wf() {
                lemma_stage_row_wf(rows, row@);
            }
        }
    }

    /// Empties the staging area.
    pub fn clear_staging(&mut self)
        ensures
            final(self)@ == (StoreView { staging: Seq::empty(), ..old(self)@ }),
            old(self)@.wf() ==> final(self)@.wf(),
    {
        self.staging = Vec::new();
        assert(staging_rows(self.staging@) =~= Seq::<StagingRow>::empty());
    }

    /// Insert-or-replace of a mirror record: any record with its guid or its
    /// extension id goes.
    pub fn replace_mirror(&mut self, row: MirrorRecord)
        ensures
            final(self)@ == (StoreView { mirror: mirror_row_replace(old(self)@.mirror, row@), ..old(self)@ }),
            old(self)@.wf() ==> final(self)@.wf(),
    {
        let ghost rows = old(self)@.mirror;
        let ghost pred = mirror_unrelated(row.guid@, row.ext_id@);
        let mut kept: Vec<MirrorRecord> = Vec::new();
        let mut i: usize = 0;
        while i < self.mirror.len()
            invariant
                rows == mirror_rows(self.mirror@),
                pred == mirror_unrelated(row.guid@, row.ext_id@),
                i <= self.mirror.len(),
                mirror_rows(kept@) == rows.take(i as int).filter(pred),
            decreases self.mirror.len() - i,
        {
            let x = &self.mirror[i];
            assert(rows.take(i as int + 1) =~= rows.take(i as int).push(x@));
            proof { rows.take(i as int).lemma_filter_push(x@, pred); }
            if x.guid != row.guid && x.ext_id != row.ext_id {
                let ghost before = kept@;
                kept.push(x.copy());
                assert(mirror_rows(kept@) =~= mirror_rows(before).push(x@));
            }
            i = i + 1;
        }
        assert(rows.take(rows.len() as int) =~= rows);
        let ghost before = kept@;
        kept.push(row);
        assert(mirror_rows(kept@) =~= mirror_rows(before).push(kept@.last()@));
        self.mirror = kept;
        proof {
            if old(self)@.wf() {
                lemma_mirror_replace_wf(rows, row@);
            }
        }
    }

    /// Insert-or-replace of a local record, keyed by extension id, as the
    /// key/value store writes them.
    pub fn put_local(&mut self, row: LocalRecord)
        ensures
            final(self)@ == (StoreView {
                local: old(self)@.local.filter(local_other(row.ext_id@)).push(row@),
                ..old(self)@
            }),
            old(self)@.wf() ==> final(self)@.wf(),
    {
        let ghost rows = old(self)@.local;
        self.delete_local(&row.ext_id);
        let ghost mid = self.local@;
        self.local.push(row);
        assert(local_rows(self.local@) =~= local_rows(mid).push(self.local@.last()@));
        proof {
            if old(self)@.wf() {
                lemma_put_local_wf(rows, row@);
            }
        }
    }

    /// Removes the local records of extension `e`.
    pub fn delete_local(&mut self, e: &String)
        ensures
            final(self)@ == (StoreView { local: old(self)@.local.filter(local_other(e@)), ..old(self)@ }),
            old(self)@.wf() ==> final(self)@.wf(),
    {
        let ghost rows = old(self)@.local;
        let ghost pred = local_other(e@);
        let mut kept: Vec<LocalRecord> = Vec::new();
        let mut i: usize = 0;
        while i < self.local.len()
            invariant
                rows == local_rows(self.local@),
                pred == local_other(e@),
                i <= self.local.len(),
                local_rows(kept@) == rows.take(i as int).filter(pred),
            decreases self.local.len() - i,
        {
            let x = &self.local[i];
            assert(rows.take(i as int + 1) =~= rows.take(i as int).push(x@));
            proof { rows.take(i as int).lemma_filter_push(x@, pred); }
            if x.ext_id != *e {
                let ghost before = kept@;
                kept.push(x.copy());
                assert(local_rows(kept@) =~= local_rows(before).push(x@));
            }
            i = i + 1;
        }
        assert(rows.take(rows.len() as int) =~= rows);
        self.local = kept;
        proof {
            if old(self)@.wf() {
                lemma_filter_unique(rows, local_key(), pred);
            }
        }
    }

    /// Applies `c` to the local records of extension `e`.
    pub fn change_local(&mut self, e: &String, c: LocalChange)
        ensures
            final(self)@ == (StoreView { local: change_local(old(self)@.local, e@, c), ..old(self)@ }),
            old(self)@.wf() ==> final(self)@.wf(),
    {
        let ghost rows = old(self)@.local;
        let mut i: usize = 0;
        while i < self.local.len()
            invariant
                rows == old(self)@.local,
                self.local@.len() == rows.len(),
                i <= self.local.len(),
                self@.mirror == old(self)@.mirror,
                self@.staging == old(self)@.staging,
                forall|j: int| 0 <= j < i ==> #[trigger] self.local@[j]@ == (if rows[j].ext_id == e@ {
                    changed_row(rows[j], c)
                } else {
                    rows[j]
                }),
                forall|j: int| i <= j < rows.len() ==> #[trigger] self.local@[j]@ == rows[j],
            decreases self.local.len() - i,
        {
            assert(self.local@[i as int]@ == rows[i as int]);
            if self.local[i].ext_id == *e {
                let x = &self.local[i];
                let updated = match c {
                    LocalChange::MarkDeleted => LocalRecord {
                        ext_id: x.ext_id.clone(),
                        data: None,
                        sync_status: SyncStatus::New,
                        change_counter: x.change_counter,
                    },
                    LocalChange::Uploaded { counter } => LocalRecord {
                        ext_id: x.ext_id.clone(),
                        data: copy_text(&x.data),
                        sync_status: SyncStatus::Normal,
                        change_counter: x.change_counter.saturating_sub(counter),
                    },
                };
                self.local.set(i, updated);
            }
            assert(self.local@[i as int]@ == (if rows[i as int].ext_id == e@ {
                changed_row(rows[i as int], c)
            } else {
                rows[i as int]
            }));
            i = i + 1;
        }
        assert(local_rows(self.local@) =~= change_local(rows, e@, c));
        proof {
            if old(self)@.wf() {
                lemma_change_local_wf(rows, e@, c);
            }
        }
    }

    /// Extension `e` takes data `t` from a sync, its record made where there
    /// is none: with no change left to upload where `reset`, else one more.
    pub fn take_local(&mut self, e: &String, t: String, reset: bool)
        ensures
            final(self)@ == (StoreView { local: take_local(old(self)@.local, e@, t@, reset), ..old(self)@ }),
            old(self)@.wf() ==> final(self)@.wf(),
    {
        proof {
            if old(self)@.wf() {
                lemma_take_local_wf(old(self)@.local, e@, t@, reset);
            }
        }
        let ghost rows = old(self)@.local;
        let mut found = false;
        let mut i: usize = 0;
        while i < self.local.len()
            invariant
                rows == old(self)@.local,
                self.local@.len() == rows.len(),
                i <= self.local.len(),
                self@.mirror == old(self)@.mirror,
                self@.staging == old(self)@.staging,
                found == (exists|j: int| 0 <= j < i && #[trigger] rows[j].ext_id == e@),
                forall|j: int| 0 <= j < i ==> #[trigger] self.local@[j]@ == (if rows[j].ext_id == e@ {
                    taken_row(rows[j], t@, reset)
                } else {
                    rows[j]
                }),
                forall|j: int| i <= j < rows.len() ==> #[trigger] self.local@[j]@ == rows[j],
            decreases self.local.len() - i,
        {
            assert(self.local@[i as int]@ == rows[i as int]);
            if self.local[i].ext_id == *e {
                let x = &self.local[i];
                let counter = if reset {
                    0
                } else {
                    x.change_counter.saturating_add(1)
                };
                let updated = LocalRecord {
                    ext_id: x.ext_id.clone(),
                    data: Some(t.clone()),
                    sync_status: SyncStatus::Normal,
                    change_counter: counter,
                };
                self.local.set(i, updated);
                found = true;
                assert(rows[i as int].ext_id == e@);
            }
            assert(self.local@[i as int]@ == (if rows[i as int].ext_id == e@ {
                taken_row(rows[i as int], t@, reset)
            } else {
                rows[i as int]
            }));
            assert(found == (exists|j: int| 0 <= j < i + 1 && #[trigger] rows[j].ext_id == e@)) by {
                if rows[i as int].ext_id == e@ {
                    assert(0 <= i < i + 1 && rows[i as int].ext_id == e@);
                }
            }
            i = i + 1;
        }
        if found {
            assert(local_rows(self.local@) =~= take_local(rows, e@, t@, reset));
        } else {
            assert(!has_local(rows, e@));
            let counter: u64 = if reset {
                0
            } else {
                1
            };
            let ghost mid = self.local@;
            assert(local_rows(mid) =~= rows);
            self.local.push(
                LocalRecord {
                    ext_id: e.clone(),
                    data: Some(t),
                    sync_status: SyncStatus::Normal,
                    change_counter: counter,
                },
            );
            assert(local_rows(self.local@) =~= local_rows(mid).push(self.local@.last()@));
            assert(local_rows(self.local@) =~= take_local(rows, e@, t@, reset));
        }
    }
}

} // verus!
