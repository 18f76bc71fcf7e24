//! The incoming half of a sync pass: staging the incoming records, finding
//! the state of each staged item, planning an action for it, and applying the
//! actions to the local records.
use vstd::prelude::*;
use crate::json::{JsonMap, JsonEntries, parsed_object, object_text};
use crate::merge::{merge, merge_outcome};
use crate::interrupt::{Interruptee, SyncError};
use crate::store::{
    SyncStore, StoreView, StagingRecord, StagingRow, ServerPayload, PayloadView, LocalRow,
    LocalChange, opt_text, copy_text, stage_row, find_local, mirror_by_guid, local_other,
    change_local, take_local,
};

verus! {

/// An object as seen in contracts; `None` is a tombstone.
pub open spec fn opt_view(m: Option<JsonMap>) -> Option<JsonEntries> {
    match m {
        Some(x) => Some(x@),
        None => None,
    }
}

/// An optional object whose keys, if present, are unique.
pub open spec fn opt_wf(m: Option<JsonMap>) -> bool {
    m matches Some(x) ==> x.wf()
}

/// The identity of a staged item.
#[derive(Debug, PartialEq)]
pub struct IncomingItem {
    pub guid: String,
    pub ext_id: String,
}

/// The item's identity as seen in contracts.
pub struct ItemView {
    pub guid: Seq<char>,
    pub ext_id: Seq<char>,
}

impl View for IncomingItem {
    type V = ItemView;

    open spec fn view(&self) -> ItemView {
        ItemView { guid: self.guid@, ext_id: self.ext_id@ }
    }
}

/// Where a staged item is present besides the staging area, with the object
/// each layer holds for it.
#[derive(Debug, PartialEq)]
pub enum IncomingState {
    /// Neither a local nor a mirror record: the item is new to this client.
    IncomingOnly { incoming: Option<JsonMap> },
    /// A local record and no mirror record: the first sync of a local item.
    LocalOnly { incoming: Option<JsonMap>, local: Option<JsonMap> },
    /// A mirror record and no local record: synced before, then deleted here.
    NotLocal { incoming: Option<JsonMap>, mirror: Option<JsonMap> },
    /// Local and mirror records both exist: the steady state.
    Everywhere { incoming: Option<JsonMap>, mirror: Option<JsonMap>, local: Option<JsonMap> },
}

/// The state as seen in contracts.
pub enum StateView {
    IncomingOnly { incoming: Option<JsonEntries> },
    LocalOnly { incoming: Option<JsonEntries>, local: Option<JsonEntries> },
    NotLocal { incoming: Option<JsonEntries>, mirror: Option<JsonEntries> },
    Everywhere {
        incoming: Option<JsonEntries>,
        mirror: Option<JsonEntries>,
        local: Option<JsonEntries>,
    },
}

impl View for IncomingState {
    type V = StateView;

    open spec fn view(&self) -> StateView {
        match self {
            IncomingState::IncomingOnly { incoming } => StateView::IncomingOnly {
                incoming: opt_view(*incoming),
            },
            IncomingState::LocalOnly { incoming, local } => StateView::LocalOnly {
                incoming: opt_view(*incoming),
                local: opt_view(*local),
            },
            IncomingState::NotLocal { incoming, mirror } => StateView::NotLocal {
                incoming: opt_view(*incoming),
                mirror: opt_view(*mirror),
            },
            IncomingState::Everywhere { incoming, mirror, local } => StateView::Everywhere {
                incoming: opt_view(*incoming),
                mirror: opt_view(*mirror),
                local: opt_view(*local),
            },
        }
    }
}

impl IncomingState {
    /// Every object the state holds has unique keys.
    pub open spec fn wf(&self) -> bool {
        match self {
            IncomingState::IncomingOnly { incoming } => opt_wf(*incoming),
            IncomingState::LocalOnly { incoming, local } => opt_wf(*incoming) && opt_wf(*local),
            IncomingState::NotLocal { incoming, mirror } => opt_wf(*incoming) && opt_wf(*mirror),
            IncomingState::Everywhere { incoming, mirror, local } => opt_wf(*incoming) && opt_wf(
                *mirror,
            ) && opt_wf(*local),
        }
    }
}

/// What to do locally about an incoming item.
#[derive(Debug, PartialEq)]
pub enum IncomingAction {
    /// Delete the local record.
    DeleteLocally,
    /// Mark the local record deleted, so that the deletion is uploaded.
    DeleteRemotely,
    /// Take the incoming object as it is.
    TakeRemote { data: JsonMap },
    /// Take the merged object, which still has to be uploaded.
    Merge { data: JsonMap },
    /// Nothing to do.
    Same,
}

/// The action as seen in contracts.
pub enum ActionView {
    DeleteLocally,
    DeleteRemotely,
    TakeRemote { data: JsonEntries },
    Merge { data: JsonEntries },
    Same,
}

impl View for IncomingAction {
    type V = ActionView;

    open spec fn view(&self) -> ActionView {
        match self {
            IncomingAction::DeleteLocally => ActionView::DeleteLocally,
            IncomingAction::DeleteRemotely => ActionView::DeleteRemotely,
            IncomingAction::TakeRemote { data } => ActionView::TakeRemote { data: data@ },
            IncomingAction::Merge { data } => ActionView::Merge { data: data@ },
            IncomingAction::Same => ActionView::Same,
        }
    }
}

impl IncomingAction {
    /// Any object the action carries has unique keys.
    pub open spec fn wf(&self) -> bool {
        match self {
            IncomingAction::TakeRemote { data } => data.wf(),
            IncomingAction::Merge { data } => data.wf(),
            _ => true,
        }
    }
}

/// The decision table: the action planned for a state. Where incoming and
/// local objects both exist the merge decides, with the mirror object as the
/// common ancestor in the steady state.
pub open spec fn planned(s: StateView, r: ActionView) -> bool {
    match s {
        StateView::Everywhere { incoming, mirror, local } => match (incoming, local) {
            (Some(i), Some(l)) => merge_outcome(i, l, mirror, r),
            (Some(i), None) => r == ActionView::TakeRemote { data: i },
            // A remote tombstone wins, even over keys added locally since
            // the last sync: a known limitation, kept as documented.
            (None, _) => r == ActionView::DeleteLocally,
        },
        StateView::LocalOnly { incoming, local } => match (incoming, local) {
            (Some(i), Some(l)) => merge_outcome(i, l, None, r),
            (None, Some(_)) => r == ActionView::DeleteLocally,
            (Some(i), None) => r == ActionView::TakeRemote { data: i },
            (None, None) => r == ActionView::Same,
        },
        StateView::NotLocal { incoming, .. } => match incoming {
            Some(i) => r == ActionView::TakeRemote { data: i },
            None => r == ActionView::Same,
        },
        StateView::IncomingOnly { incoming } => match incoming {
            Some(i) => r == ActionView::TakeRemote { data: i },
            None => r == ActionView::DeleteLocally,
        },
    }
}

/// Plans the local action for an item in state `s`.
pub fn plan_incoming(s: IncomingState) -> (r: IncomingAction)
    requires
        s.wf(),
    ensures
        planned(s@, r@),
        r.wf(),
{
    match s {
        IncomingState::Everywhere { incoming, mirror, local } => match (incoming, local) {
            (Some(id), Some(ld)) => merge(id, ld, mirror),
            (Some(id), None) => IncomingAction::TakeRemote { data: id },
            (None, _) => IncomingAction::DeleteLocally,
        },
        IncomingState::LocalOnly { incoming, local } => match (incoming, local) {
            (Some(id), Some(ld)) => merge(id, ld, None),
            (None, Some(_)) => IncomingAction::DeleteLocally,
            (Some(id), None) => IncomingAction::TakeRemote { data: id },
            (None, None) => IncomingAction::Same,
        },
        IncomingState::NotLocal { incoming, .. } => match incoming {
            Some(data) => IncomingAction::TakeRemote { data },
            None => IncomingAction::Same,
        },
        IncomingState::IncomingOnly { incoming } => match incoming {
            Some(data) => IncomingAction::TakeRemote { data },
            None => IncomingAction::DeleteLocally,
        },
    }
}

/// The staged row for a payload; a payload marked deleted stages no data.
pub open spec fn payload_row(p: PayloadView) -> StagingRow {
    StagingRow {
        guid: p.guid,
        ext_id: p.ext_id,
        data: if p.deleted {
            None
        } else {
            p.data
        },
        server_modified: p.last_modified,
    }
}

/// The staging area after staging each payload of `batch` in turn.
pub open spec fn staged(rows: Seq<StagingRow>, batch: Seq<PayloadView>) -> Seq<StagingRow>
    decreases batch.len(),
{
    if batch.len() == 0 {
        rows
    } else {
        stage_row(staged(rows, batch.drop_last()), payload_row(batch.last()))
    }
}

/// The payloads as seen in contracts.
pub open spec fn payload_views(v: Seq<ServerPayload>) -> Seq<PayloadView> {
    v.map_values(|p: ServerPayload| p@)
}

/// Stages an incoming batch: each payload replaces any staged record with its
/// guid. All or nothing: when the signal is raised, the store is left as it
/// was.
pub fn stage_incoming<S: Interruptee>(
    store: &mut SyncStore,
    incoming_bsos: Vec<ServerPayload>,
    signal: &S,
) -> (r: Result<(), SyncError>)
    ensures
        r is Ok ==> final(store)@ == (StoreView {
            staging: staged(old(store)@.staging, payload_views(incoming_bsos@)),
            ..old(store)@
        }),
        r is Err ==> final(store)@ == old(store)@,
        old(store)@.wf() ==> final(store)@.wf(),
        incoming_bsos@.len() == 0 ==> r is Ok,
        signal.never_raised() ==> r is Ok,
{
    let ghost batch = payload_views(incoming_bsos@);
    let mut work = store.copy();
    let mut i: usize = 0;
    while i < incoming_bsos.len()
        invariant
            batch == payload_views(incoming_bsos@),
            i <= incoming_bsos.len(),
            work@ == (StoreView {
                staging: staged(old(store)@.staging, batch.take(i as int)),
                ..old(store)@
            }),
            old(store)@.wf() ==> work@.wf(),
            *store == *old(store),
        decreases incoming_bsos.len() - i,
    {
        if signal.was_interrupted() {
            return Err(SyncError::Interrupted);
        }
        let bso = &incoming_bsos[i];
        let data = if bso.deleted {
            None
        } else {
            copy_text(&bso.data)
        };
        let row = StagingRecord {
            guid: bso.guid.clone(),
            ext_id: bso.ext_id.clone(),
            data,
            server_modified: bso.last_modified.as_millis(),
        };
        assert(row@ == payload_row(batch[i as int]));
        work.stage(row);
        assert(batch.take(i as int + 1).drop_last() =~= batch.take(i as int));
        i = i + 1;
    }
    assert(batch.take(batch.len() as int) =~= batch);
    *store = work;
    Ok(())
}

/// What the text of a record parses to: only a JSON object counts, and
/// anything else is as if there were no data.
pub open spec fn parse_opt(t: Option<Seq<char>>) -> Option<JsonEntries> {
    match t {
        Some(x) => parsed_object(x),
        None => None,
    }
}

/// The state of a staged row: its mirror record is found by guid, its local
/// record by extension id.
pub open spec fn classify(s: StoreView, row: StagingRow) -> StateView {
    let incoming = parse_opt(row.data);
    match (find_local(s.local, row.ext_id), mirror_by_guid(s.mirror, row.guid)) {
        (None, None) => StateView::IncomingOnly { incoming },
        (Some(l), None) => StateView::LocalOnly { incoming, local: parse_opt(l.data) },
        (None, Some(m)) => StateView::NotLocal { incoming, mirror: parse_opt(m.data) },
        (Some(l), Some(m)) => StateView::Everywhere {
            incoming,
            mirror: parse_opt(m.data),
            local: parse_opt(l.data),
        },
    }
}

/// Every staged item, in staging order, with its state.
pub open spec fn classification(s: StoreView) -> Seq<(ItemView, StateView)> {
    s.staging.map_values(
        |row: StagingRow| (ItemView { guid: row.guid, ext_id: row.ext_id }, classify(s, row)),
    )
}

/// Classified items as seen in contracts.
pub open spec fn incoming_views(v: Seq<(IncomingItem, IncomingState)>) -> Seq<(ItemView, StateView)> {
    v.map_values(|p: (IncomingItem, IncomingState)| (p.0@, p.1@))
}

/// Parses the text of a record as a JSON object.
fn parse_text(t: &Option<String>) -> (r: Option<JsonMap>)
    ensures
        opt_view(r) == parse_opt(opt_text(*t)),
        opt_wf(r),
{
    match t {
        Some(x) => JsonMap::parse(x.as_str()),
        None => None,
    }
}

/// The staged items, in staging order, each with its state.
pub fn get_incoming(store: &SyncStore) -> (r: Vec<(IncomingItem, IncomingState)>)
    ensures
        incoming_views(r@) == classification(store@),
        r@.len() == store@.staging.len(),
        forall|i: int|
            0 <= i < r@.len() ==> {
                let row = #[trigger] store@.staging[i];
                &&& r@[i].0@ == (ItemView { guid: row.guid, ext_id: row.ext_id })
                &&& r@[i].1@ == classify(store@, row)
                &&& r@[i].1.wf()
            },
{
    let mut out: Vec<(IncomingItem, IncomingState)> = Vec::new();
    let mut i: usize = 0;
    while i < store.staging_len()
        invariant
            i <= store@.staging.len(),
            out@.len() == i,
            forall|j: int|
                0 <= j < i ==> {
                    let row = #[trigger] store@.staging[j];
                    &&& out@[j].0@ == (ItemView { guid: row.guid, ext_id: row.ext_id })
                    &&& out@[j].1@ == classify(store@, row)
                    &&& out@[j].1.wf()
                },
        decreases store@.staging.len() - i,
    {
        let row = store.staging_at(i);
        let incoming = parse_text(&row.data);
        let state = match (store.find_local(&row.ext_id), store.mirror_by_guid(&row.guid)) {
            (None, None) => IncomingState::IncomingOnly { incoming },
            (Some(l), None) => IncomingState::LocalOnly { incoming, local: parse_text(&l.data) },
            (None, Some(m)) => IncomingState::NotLocal { incoming, mirror: parse_text(&m.data) },
            (Some(l), Some(m)) => IncomingState::Everywhere {
                incoming,
                mirror: parse_text(&m.data),
                local: parse_text(&l.data),
            },
        };
        let item = IncomingItem { guid: row.guid.clone(), ext_id: row.ext_id.clone() };
        out.push((item, state));
        i = i + 1;
    }
    assert(incoming_views(out@) =~= classification(store@));
    out
}

/// Plans an action for each classified item, keeping the order.
pub fn plan_all(incoming: Vec<(IncomingItem, IncomingState)>) -> (r: Vec<
    (IncomingItem, IncomingAction),
>)
    requires
        forall|i: int| 0 <= i < incoming@.len() ==> (#[trigger] incoming@[i]).1.wf(),
    ensures
        r@.len() == incoming@.len(),
        forall|i: int|
            0 <= i < r@.len() ==> (#[trigger] r@[i]).0 == incoming@[i].0 && planned(
                incoming@[i].1@,
                r@[i].1@,
            ) && r@[i].1.wf(),
{
    let ghost orig = incoming@;
    let mut rest = incoming;
    let mut out: Vec<(IncomingItem, IncomingAction)> = Vec::new();
    while rest.len() > 0
        invariant
            out@.len() + rest@.len() == orig.len(),
            rest@ == orig.skip(out@.len() as int),
            forall|i: int| 0 <= i < orig.len() ==> (#[trigger] orig[i]).1.wf(),
            forall|i: int|
                0 <= i < out@.len() ==> (#[trigger] out@[i]).0 == orig[i].0 && planned(
                    orig[i].1@,
                    out@[i].1@,
                ) && out@[i].1.wf(),
        decreases rest@.len(),
    {
        let ghost n = out@.len();
        let (item, state) = rest.remove(0);
        assert(orig[n as int] == (item, state));
        let action = plan_incoming(state);
        out.push((item, action));
        assert(rest@ =~= orig.skip(out@.len() as int));
    }
    out
}

/// The local records after an action for extension `e`.
pub open spec fn applied(rows: Seq<LocalRow>, e: Seq<char>, a: ActionView) -> Seq<LocalRow> {
    match a {
        ActionView::DeleteLocally => rows.filter(local_other(e)),
        ActionView::DeleteRemotely => change_local(rows, e, LocalChange::MarkDeleted),
        ActionView::TakeRemote { data } => take_local(rows, e, object_text(data), true),
        ActionView::Merge { data } => take_local(rows, e, object_text(data), false),
        ActionView::Same => rows,
    }
}

/// The local records after each action in turn.
pub open spec fn applied_all(rows: Seq<LocalRow>, acts: Seq<(ItemView, ActionView)>) -> Seq<
    LocalRow,
>
    decreases acts.len(),
{
    if acts.len() == 0 {
        rows
    } else {
        applied(applied_all(rows, acts.drop_last()), acts.last().0.ext_id, acts.last().1)
    }
}

/// The planned actions as seen in contracts.
pub open spec fn action_views(v: Seq<(IncomingItem, IncomingAction)>) -> Seq<(ItemView, ActionView)> {
    v.map_values(|p: (IncomingItem, IncomingAction)| (p.0@, p.1@))
}

/// Applies the planned actions to the local records, in order. All or
/// nothing: when the signal is raised, the store is left as it was.
pub fn apply_actions<S: Interruptee>(
    store: &mut SyncStore,
    actions: Vec<(IncomingItem, IncomingAction)>,
    signal: &S,
) -> (r: Result<(), SyncError>)
    ensures
        r is Ok ==> final(store)@ == (StoreView {
            local: applied_all(old(store)@.local, action_views(actions@)),
            ..old(store)@
        }),
        r is Err ==> final(store)@ == old(store)@,
        old(store)@.wf() ==> final(store)@.wf(),
        actions@.len() == 0 ==> r is Ok,
        signal.never_raised() ==> r is Ok,
{
    let ghost acts = action_views(actions@);
    let mut work = store.copy();
    let mut i: usize = 0;
    while i < actions.len()
        invariant
            acts == action_views(actions@),
            i <= actions.len(),
            work@ == (StoreView {
                local: applied_all(old(store)@.local, acts.take(i as int)),
                ..old(store)@
            }),
            old(store)@.wf() ==> work@.wf(),
            *store == *old(store),
        decreases actions.len() - i,
    {
        if signal.was_interrupted() {
            return Err(SyncError::Interrupted);
        }
        let (item, action) = &actions[i];
        let e = &item.ext_id;
        match action {
            IncomingAction::DeleteLocally => work.delete_local(e),
            IncomingAction::DeleteRemotely => work.change_local(e, LocalChange::MarkDeleted),
            IncomingAction::TakeRemote { data } => work.take_local(e, data.to_json_text(), true),
            IncomingAction::Merge { data } => work.take_local(e, data.to_json_text(), false),
            IncomingAction::Same => {},
        }
        assert(acts.take(i as int + 1).drop_last() =~= acts.take(i as int));
        i = i + 1;
    }
    assert(acts.take(acts.len() as int) =~= acts);
    *store = work;
    Ok(())
}

} // verus!
