//! The outgoing half of a sync pass: collecting the local records with
//! changes to upload, and recording a confirmed upload.
use vstd::prelude::*;
use rand::Rng;
use crate::ServerTimestamp;
use crate::interrupt::{Interruptee, SyncError};
use crate::store::{
    SyncStore, StoreView, LocalRecord, LocalRow, MirrorRecord, MirrorRow, StagingRow,
    ServerPayload, PayloadView, LocalChange, copy_text, mirror_by_ext, mirror_row_replace,
    change_local,
};

verus! {

/// The length of a guid made here.
pub const GUID_LEN: usize = 12;

/// A character of a guid made here: an ASCII letter or digit.
pub open spec fn is_guid_char(c: char) -> bool {
    ('a' <= c && c <= 'z') || ('A' <= c && c <= 'Z') || ('0' <= c && c <= '9')
}

/// A guid as made here for a record the server has not seen.
pub open spec fn is_fresh_guid(g: Seq<char>) -> bool {
    g.len() == GUID_LEN && forall|i: int| 0 <= i < g.len() ==> is_guid_char(#[trigger] g[i])
}

/// Relies on rand's `Alphanumeric` distribution, drawn from the thread-local
/// generator: `n` characters, each an ASCII letter or digit.
#[verifier::external_body]
fn random_alphanumeric(n: usize) -> (r: String)
    ensures
        r@.len() == n,
        forall|i: int| 0 <= i < r@.len() ==> is_guid_char(#[trigger] r@[i]),
{
    rand::thread_rng().sample_iter(&rand::distributions::Alphanumeric).take(n).map(char::from).collect()
}

/// A fresh random guid.
pub fn random_guid() -> (r: String)
    ensures
        is_fresh_guid(r@),
{
    random_alphanumeric(GUID_LEN)
}

/// What is kept of a collected record until its upload is confirmed.
#[derive(Debug)]
pub struct OutgoingStateHolder {
    pub ext_id: String,
    /// The change counter when the record was collected.
    pub change_counter: u64,
}

/// A record to upload, with what is kept of it.
#[derive(Debug)]
pub struct OutgoingInfo {
    pub state: OutgoingStateHolder,
    pub payload: ServerPayload,
}

/// A collected record as seen in contracts.
pub struct OutgoingView {
    pub ext_id: Seq<char>,
    pub change_counter: u64,
    pub payload: PayloadView,
}

impl View for OutgoingInfo {
    type V = OutgoingView;

    open spec fn view(&self) -> OutgoingView {
        OutgoingView {
            ext_id: self.state.ext_id@,
            change_counter: self.state.change_counter,
            payload: self.payload@,
        }
    }
}

/// The upload of local record `r` under guid `g`: its data, or a deletion
/// where it has none, with the counter as it stands now.
pub open spec fn outgoing_of(r: LocalRow, g: Seq<char>) -> OutgoingView {
    OutgoingView {
        ext_id: r.ext_id,
        change_counter: r.change_counter as u64,
        payload: PayloadView {
            guid: g,
            ext_id: r.ext_id,
            data: r.data,
            deleted: r.data is None,
            last_modified: 0,
        },
    }
}

/// The upload of local record `r`: under the guid of its mirror record, or
/// under a fresh guid where it has none.
pub open spec fn outgoing_for(s: StoreView, r: LocalRow, o: OutgoingView) -> bool {
    match mirror_by_ext(s.mirror, r.ext_id) {
        Some(m) => o == outgoing_of(r, m.guid),
        None => is_fresh_guid(o.payload.guid) && o == outgoing_of(r, o.payload.guid),
    }
}

/// Local records with changes to upload.
pub open spec fn has_changes() -> spec_fn(LocalRow) -> bool {
    |r: LocalRow| r.change_counter > 0
}

/// The local records to upload, in order.
pub open spec fn pending(rows: Seq<LocalRow>) -> Seq<LocalRow> {
    rows.filter(has_changes())
}

impl OutgoingInfo {
    /// The upload of a local record under guid `guid`.
    pub fn from_record(rec: &LocalRecord, guid: String) -> (r: OutgoingInfo)
        ensures
            r@ == outgoing_of(rec@, guid@),
    {
        let data = copy_text(&rec.data);
        let deleted = data.is_none();
        OutgoingInfo {
            state: OutgoingStateHolder {
                ext_id: rec.ext_id.clone(),
                change_counter: rec.change_counter,
            },
            payload: ServerPayload {
                guid,
                ext_id: rec.ext_id.clone(),
                data,
                deleted,
                last_modified: ServerTimestamp(0),
            },
        }
    }
}

/// Collects every local record with changes, in order, for upload, each
/// with its change counter as it stands now.
pub fn get_outgoing<S: Interruptee>(store: &SyncStore, _signal: &S) -> (r: Vec<OutgoingInfo>)
    ensures
        r@.len() == pending(store@.local).len(),
        forall|i: int|
            0 <= i < r@.len() ==> outgoing_for(store@, pending(store@.local)[i], #[trigger] r@[i]@),
{
    let ghost rows = store@.local;
    let mut out: Vec<OutgoingInfo> = Vec::new();
    let mut i: usize = 0;
    while i < store.local_len()
        invariant
            rows == store@.local,
            i <= rows.len(),
            out@.len() == rows.take(i as int).filter(has_changes()).len(),
            forall|j: int|
                0 <= j < out@.len() ==> outgoing_for(
                    store@,
                    rows.take(i as int).filter(has_changes())[j],
                    #[trigger] out@[j]@,
                ),
        decreases rows.len() - i,
    {
        let rec = store.local_at(i);
        assert(rows.take(i as int + 1) =~= rows.take(i as int).push(rec@));
        proof {
            rows.take(i as int).lemma_filter_push(rec@, has_changes());
        }
        if rec.change_counter > 0 {
            let guid = match store.mirror_by_ext(&rec.ext_id) {
                Some(m) => m.guid.clone(),
                None => random_guid(),
            };
            out.push(OutgoingInfo::from_record(rec, guid));
        }
        i = i + 1;
    }
    assert(rows.take(rows.len() as int) =~= rows);
    out
}

/// The local records after the uploads of `items` are confirmed.
pub open spec fn uploaded_local(rows: Seq<LocalRow>, items: Seq<OutgoingView>) -> Seq<LocalRow>
    decreases items.len(),
{
    if items.len() == 0 {
        rows
    } else {
        change_local(
            uploaded_local(rows, items.drop_last()),
            items.last().ext_id,
            LocalChange::Uploaded { counter: items.last().change_counter },
        )
    }
}

/// The mirror record for a staged record.
pub open spec fn staged_mirror_row(s: StagingRow) -> MirrorRow {
    MirrorRow { guid: s.guid, ext_id: s.ext_id, server_modified: s.server_modified, data: s.data }
}

/// The mirror after each staged record in turn replaces its own.
pub open spec fn fold_staging(mirror: Seq<MirrorRow>, staging: Seq<StagingRow>) -> Seq<MirrorRow>
    decreases staging.len(),
{
    if staging.len() == 0 {
        mirror
    } else {
        mirror_row_replace(fold_staging(mirror, staging.drop_last()), staged_mirror_row(staging.last()))
    }
}

/// The mirror record for a confirmed upload.
pub open spec fn uploaded_mirror_row(o: OutgoingView) -> MirrorRow {
    MirrorRow {
        guid: o.payload.guid,
        ext_id: o.ext_id,
        server_modified: o.payload.last_modified,
        data: o.payload.data,
    }
}

/// The mirror after each confirmed upload in turn replaces its own.
pub open spec fn fold_uploaded(mirror: Seq<MirrorRow>, items: Seq<OutgoingView>) -> Seq<MirrorRow>
    decreases items.len(),
{
    if items.len() == 0 {
        mirror
    } else {
        mirror_row_replace(fold_uploaded(mirror, items.drop_last()), uploaded_mirror_row(items.last()))
    }
}

/// The store after recording the confirmed upload of `items`: counters drop
/// by what was collected, the staging area goes into the mirror and is
/// emptied, and the uploaded records go into the mirror.
pub open spec fn recorded(s: StoreView, items: Seq<OutgoingView>) -> StoreView {
    StoreView {
        local: uploaded_local(s.local, items),
        mirror: fold_uploaded(fold_staging(s.mirror, s.staging), items),
        staging: Seq::empty(),
    }
}

/// The collected records as seen in contracts.
pub open spec fn outgoing_views(v: Seq<OutgoingInfo>) -> Seq<OutgoingView> {
    v.map_values(|o: OutgoingInfo| o@)
}

/// Records the confirmed upload of `items`. All or nothing: when the signal
/// is raised, the store is left as it was.
pub fn record_uploaded<S: Interruptee>(
    store: &mut SyncStore,
    items: &Vec<OutgoingInfo>,
    signal: &S,
) -> (r: Result<(), SyncError>)
    ensures
        r is Ok ==> final(store)@ == recorded(old(store)@, outgoing_views(items@)),
        r is Err ==> final(store)@ == old(store)@,
        old(store)@.wf() ==> final(store)@.wf(),
        items@.len() == 0 ==> r is Ok,
        signal.never_raised() ==> r is Ok,
{
    let ghost its = outgoing_views(items@);
    let ghost s0 = old(store)@;
    let mut work = store.copy();
    let mut i: usize = 0;
    while i < items.len()
        invariant
            its == outgoing_views(items@),
            i <= items.len(),
            work@ == (StoreView { local: uploaded_local(s0.local, its.take(i as int)), ..s0 }),
            s0.wf() ==> work@.wf(),
            *store == *old(store),
        decreases items.len() - i,
    {
        if signal.was_interrupted() {
            return Err(SyncError::Interrupted);
        }
        let item = &items[i];
        work.change_local(
            &item.state.ext_id,
            LocalChange::Uploaded { counter: item.state.change_counter },
        );
        assert(its.take(i as int + 1).drop_last() =~= its.take(i as int));
        i = i + 1;
    }
    assert(its.take(its.len() as int) =~= its);
    let ghost stg = s0.staging;
    let mut j: usize = 0;
    while j < work.staging_len()
        invariant
            stg == s0.staging,
            j <= stg.len(),
            work@ == (StoreView {
                local: uploaded_local(s0.local, its),
                mirror: fold_staging(s0.mirror, stg.take(j as int)),
                staging: stg,
            }),
            s0.wf() ==> work@.wf(),
        decreases stg.len() - j,
    {
        let row = work.staging_at(j);
        let m = MirrorRecord {
            guid: row.guid.clone(),
            ext_id: row.ext_id.clone(),
            server_modified: row.server_modified,
            data: copy_text(&row.data),
        };
        assert(stg.take(j as int + 1).drop_last() =~= stg.take(j as int));
        work.replace_mirror(m);
        j = j + 1;
    }
    assert(stg.take(stg.len() as int) =~= stg);
    work.clear_staging();
    let mut i: usize = 0;
    while i < items.len()
        invariant
            its == outgoing_views(items@),
            i <= items.len(),
            work@ == (StoreView {
                local: uploaded_local(s0.local, its),
                mirror: fold_uploaded(fold_staging(s0.mirror, stg), its.take(i as int)),
                staging: Seq::empty(),
            }),
            s0.wf() ==> work@.wf(),
            *store == *old(store),
        decreases items.len() - i,
    {
        if signal.was_interrupted() {
            return Err(SyncError::Interrupted);
        }
        let item = &items[i];
        let m = MirrorRecord {
            guid: item.payload.guid.clone(),
            ext_id: item.state.ext_id.clone(),
            server_modified: item.payload.last_modified.as_millis(),
            data: copy_text(&item.payload.data),
        };
        assert(its.take(i as int + 1).drop_last() =~= its.take(i as int));
        work.replace_mirror(m);
        i = i + 1;
    }
    assert(its.take(its.len() as int) =~= its);
    *store = work;
    Ok(())
}

} // verus!
