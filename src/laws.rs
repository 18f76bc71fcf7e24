//! Properties of the engine that relate several of its operations.
use vstd::prelude::*;
use crate::store::{
    StoreView, LocalRow, MirrorRow, PayloadView, find_local, mirror_by_guid, mirror_row_replace,
    local_other, mirror_unrelated, LocalChange, changed_row, StagingRow, SyncStatus,
};
use crate::incoming::{StateView, ItemView, classify, classification, payload_row, staged};
use crate::json::parsed_object;
use crate::outgoing::{OutgoingView, recorded, uploaded_local};

verus! {

/// A record appended after removing all others with its guid is the first
/// with that guid.
proof fn lemma_replaced_mirror_found(rows: Seq<MirrorRow>, m: MirrorRow)
    ensures
        mirror_by_guid(mirror_row_replace(rows, m), m.guid) == Some(m),
{
    let f = rows.filter(mirror_unrelated(m.guid, m.ext_id));
    let t = f.push(m);
    broadcast use vstd::seq_lib::group_filter_ensures;

    let i = f.len() as int;
    assert forall|j: int| 0 <= j < i implies #[trigger] t[j].guid != m.guid by {
        assert(mirror_unrelated(m.guid, m.ext_id)(f[j]));
    }
    assert(0 <= i < t.len() && t[i].guid == m.guid);
    let k = choose|k: int|
        0 <= k < t.len() && #[trigger] t[k].guid == m.guid && forall|j: int|
            0 <= j < k ==> #[trigger] t[j].guid != m.guid;
    assert(k == i);
}

/// A local record appended after removing the others of its extension is the
/// first of that extension.
proof fn lemma_put_local_found(rows: Seq<LocalRow>, l: LocalRow)
    ensures
        find_local(rows.filter(local_other(l.ext_id)).push(l), l.ext_id) == Some(l),
{
    let f = rows.filter(local_other(l.ext_id));
    let t = f.push(l);
    broadcast use vstd::seq_lib::group_filter_ensures;

    let i = f.len() as int;
    assert forall|j: int| 0 <= j < i implies #[trigger] t[j].ext_id != l.ext_id by {
        assert(local_other(l.ext_id)(f[j]));
    }
    assert(0 <= i < t.len() && t[i].ext_id == l.ext_id);
    let k = choose|k: int|
        0 <= k < t.len() && #[trigger] t[k].ext_id == l.ext_id && forall|j: int|
            0 <= j < k ==> #[trigger] t[j].ext_id != l.ext_id;
    assert(k == i);
}

/// Staging a payload for an item this client has never seen and classifying
/// it gives `IncomingOnly`; once a mirror record with its guid is added it
/// gives `NotLocal`; once a local record of its extension is added too it
/// gives `Everywhere`.
pub proof fn lemma_stage_then_classify(s: StoreView, p: PayloadView, m: MirrorRow, l: LocalRow)
    requires
        find_local(s.local, p.ext_id) is None,
        mirror_by_guid(s.mirror, p.guid) is None,
        m.guid == p.guid,
        l.ext_id == p.ext_id,
    ensures
        ({
            let s1 = StoreView { staging: staged(s.staging, seq![p]), ..s };
            let s2 = StoreView { mirror: mirror_row_replace(s1.mirror, m), ..s1 };
            let s3 = StoreView { local: s2.local.filter(local_other(l.ext_id)).push(l), ..s2 };
            let row = payload_row(p);
            &&& s1.staging.last() == row
            &&& classify(s1, row) is IncomingOnly
            &&& classify(s2, row) is NotLocal
            &&& classify(s3, row) is Everywhere
        }),
{
    let one = seq![p];
    assert(one.drop_last() =~= Seq::<PayloadView>::empty());
    lemma_replaced_mirror_found(s.mirror, m);
    let s1 = StoreView { staging: staged(s.staging, one), ..s };
    let s2 = StoreView { mirror: mirror_row_replace(s1.mirror, m), ..s1 };
    lemma_put_local_found(s2.local, l);
}

/// Classifying is a function of the store: two runs on the same store agree.
pub proof fn lemma_classification_repeatable(
    s: StoreView,
    first: Seq<(ItemView, StateView)>,
    second: Seq<(ItemView, StateView)>,
)
    requires
        first == classification(s),
        second == classification(s),
    ensures
        first == second,
        first.len() == s.staging.len(),
{
}

/// A staged row whose data is not a JSON object (not JSON at all, or JSON of
/// another kind) classifies exactly as one without data.
pub proof fn lemma_malformed_as_absent(s: StoreView, row: StagingRow)
    requires
        row.data matches Some(t) && parsed_object(t) is None,
    ensures
        classify(s, row) == classify(s, StagingRow { data: None, ..row }),
{
}

/// Items for other extensions leave a local record as it is.
proof fn lemma_uploaded_untouched(rows: Seq<LocalRow>, items: Seq<OutgoingView>, i: int)
    requires
        0 <= i < rows.len(),
        forall|a: int| 0 <= a < items.len() ==> #[trigger] items[a].ext_id != rows[i].ext_id,
    ensures
        uploaded_local(rows, items).len() == rows.len(),
        uploaded_local(rows, items)[i] == rows[i],
    decreases items.len(),
{
    if items.len() > 0 {
        let d = items.drop_last();
        assert forall|a: int| 0 <= a < d.len() implies #[trigger] d[a].ext_id != rows[i].ext_id by {
            assert(d[a] == items[a]);
        }
        lemma_uploaded_untouched(rows, d, i);
        assert(items.last().ext_id != rows[i].ext_id);
    }
}

/// The one item for a record's extension changes it once.
proof fn lemma_uploaded_once(rows: Seq<LocalRow>, items: Seq<OutgoingView>, i: int, k: int)
    requires
        0 <= i < rows.len(),
        0 <= k < items.len(),
        items[k].ext_id == rows[i].ext_id,
        forall|a: int| 0 <= a < items.len() && a != k ==> #[trigger] items[a].ext_id != rows[i].ext_id,
    ensures
        uploaded_local(rows, items).len() == rows.len(),
        uploaded_local(rows, items)[i] == changed_row(
            rows[i],
            LocalChange::Uploaded { counter: items[k].change_counter },
        ),
    decreases items.len(),
{
    let d = items.drop_last();
    if k == items.len() - 1 {
        assert forall|a: int| 0 <= a < d.len() implies #[trigger] d[a].ext_id != rows[i].ext_id by {
            assert(d[a] == items[a]);
        }
        lemma_uploaded_untouched(rows, d, i);
    } else {
        assert forall|a: int| 0 <= a < d.len() && a != k implies #[trigger] d[a].ext_id
            != rows[i].ext_id by {
            assert(d[a] == items[a]);
        }
        assert(d[k] == items[k]);
        lemma_uploaded_once(rows, d, i, k);
        assert(items.last().ext_id != rows[i].ext_id);
    }
}

/// Recording the confirmed upload of a batch lowers the live counter of each
/// uploaded record by the count collected with it, to no less than zero.
pub proof fn lemma_upload_counter(s: StoreView, items: Seq<OutgoingView>, i: int, k: int)
    requires
        0 <= i < s.local.len(),
        0 <= k < items.len(),
        items[k].ext_id == s.local[i].ext_id,
        forall|a: int| 0 <= a < items.len() && a != k ==> #[trigger] items[a].ext_id != items[k].ext_id,
    ensures
        recorded(s, items).local.len() == s.local.len(),
        recorded(s, items).local[i].change_counter == (if s.local[i].change_counter
            >= items[k].change_counter {
            s.local[i].change_counter - items[k].change_counter
        } else {
            0
        }),
        recorded(s, items).local[i].sync_status == SyncStatus::Normal,
{
    lemma_uploaded_once(s.local, items, i, k);
}

/// Changes made to a record after it was collected (`extra` of them) survive
/// the recording of its upload: the counter is not reset to zero.
pub proof fn lemma_upload_keeps_later_changes(
    s: StoreView,
    items: Seq<OutgoingView>,
    i: int,
    k: int,
    extra: int,
)
    requires
        0 <= i < s.local.len(),
        0 <= k < items.len(),
        items[k].ext_id == s.local[i].ext_id,
        forall|a: int| 0 <= a < items.len() && a != k ==> #[trigger] items[a].ext_id != items[k].ext_id,
        extra >= 0,
        s.local[i].change_counter == items[k].change_counter + extra,
    ensures
        recorded(s, items).local[i].change_counter == extra,
{
    lemma_upload_counter(s, items, i, k);
}

} // verus!
