//! Field-level merge of an incoming object with the local one, given the
//! last object both sides agreed on (the mirror), where there is one.
use vstd::prelude::*;
use crate::json::{JsonMap, JsonEntries, entries_map, keys_unique, keys_sorted, lemma_entry_in_map};
use crate::incoming::{IncomingAction, ActionView, opt_view};

verus! {

/// The incoming value of `k` wins: the key is incoming and the server changed
/// it since the common ancestor (or the ancestor lacks it).
pub open spec fn keeps_incoming(
    inc: Map<Seq<char>, Seq<char>>,
    par: Map<Seq<char>, Seq<char>>,
    k: Seq<char>,
) -> bool {
    inc.contains_key(k) && (!par.contains_key(k) || inc[k] != par[k])
}

/// The local value of `k` stays: it is local, the incoming value does not win,
/// and the server did not delete the key since the common ancestor.
pub open spec fn keeps_local(
    inc: Map<Seq<char>, Seq<char>>,
    loc: Map<Seq<char>, Seq<char>>,
    par: Map<Seq<char>, Seq<char>>,
    k: Seq<char>,
) -> bool {
    loc.contains_key(k) && !keeps_incoming(inc, par, k) && (!par.contains_key(k)
        || inc.contains_key(k))
}

/// The merged object, key by key. Without an ancestor (`par` empty) this is
/// the local object overwritten by every incoming key.
pub open spec fn merged_map(
    inc: Map<Seq<char>, Seq<char>>,
    loc: Map<Seq<char>, Seq<char>>,
    par: Map<Seq<char>, Seq<char>>,
) -> Map<Seq<char>, Seq<char>> {
    Map::new(
        |k: Seq<char>| keeps_incoming(inc, par, k) || keeps_local(inc, loc, par, k),
        |k: Seq<char>|
            if keeps_incoming(inc, par, k) {
                inc[k]
            } else {
                loc[k]
            },
    )
}

/// Whether one of the first `n` entries has key `k`.
pub open spec fn key_before(s: JsonEntries, n: int, k: Seq<char>) -> bool {
    exists|j: int| 0 <= j < n && #[trigger] s[j].0 == k
}

/// The ancestor as a map; none is the empty object.
pub open spec fn parent_map(par: Option<JsonEntries>) -> Map<Seq<char>, Seq<char>> {
    match par {
        Some(p) => entries_map(p),
        None => Map::empty(),
    }
}

/// What the merge decides: nothing to do when incoming and local agree; take
/// the incoming object when the merge gives exactly it; else the merged object,
/// its keys in increasing order.
pub open spec fn merge_outcome(
    inc: JsonEntries,
    loc: JsonEntries,
    par: Option<JsonEntries>,
    r: ActionView,
) -> bool {
    let m = merged_map(entries_map(inc), entries_map(loc), parent_map(par));
    if entries_map(inc) == entries_map(loc) {
        r == ActionView::Same
    } else if m == entries_map(inc) {
        r == ActionView::TakeRemote { data: inc }
    } else {
        r matches ActionView::Merge { data } && keys_sorted(data) && keys_unique(data)
            && entries_map(data) == m
    }
}

/// Merges `incoming` into `local`, with `parent` as the common ancestor.
pub fn merge(incoming: JsonMap, local: JsonMap, parent: Option<JsonMap>) -> (r: IncomingAction)
    requires
        incoming.wf(),
        local.wf(),
        parent matches Some(p) ==> p.wf(),
    ensures
        merge_outcome(incoming@, local@, opt_view(parent), r@),
        r.wf(),
{
    if incoming.same_as(&local) {
        return IncomingAction::Same;
    }
    let ghost inc = incoming.map();
    let ghost loc = local.map();
    let ghost par = parent_map(opt_view(parent));
    let empty = JsonMap::new();
    let p: &JsonMap = match &parent {
        Some(p) => p,
        None => &empty,
    };
    assert(p.map() =~= par);
    let mut out = JsonMap::new();
    assert(out.map() =~= Map::<Seq<char>, Seq<char>>::empty());
    assert(keys_sorted(out@));
    let mut i: usize = 0;
    while i < local.len()
        invariant
            incoming.wf(),
            local.wf(),
            p.wf(),
            p.map() == par,
            inc == incoming.map(),
            loc == local.map(),
            out.wf(),
            keys_sorted(out@),
            i <= local@.len(),
            out.map() == Map::new(
                |k: Seq<char>|
                    key_before(local@, i as int, k) && (keeps_incoming(inc, par, k) || keeps_local(
                        inc,
                        loc,
                        par,
                        k,
                    )),
                |k: Seq<char>| merged_map(inc, loc, par)[k],
            ),
        decreases local@.len() - i,
    {
        let (k, v) = local.entry(i);
        proof {
            lemma_entry_in_map(local@, i as int);
        }
        let in_incoming = incoming.get(k);
        let in_parent = p.get(k);
        match in_incoming {
            Some(iv) => {
                let incoming_wins = match in_parent {
                    None => true,
                    Some(pv) => !(*iv == *pv),
                };
                if incoming_wins {
                    out.insert_sorted(k.clone(), iv.clone());
                } else {
                    out.insert_sorted(k.clone(), v.clone());
                }
            },
            None => {
                if in_parent.is_none() {
                    out.insert_sorted(k.clone(), v.clone());
                }
            },
        }
        proof {
            assert forall|q: Seq<char>|
                #[trigger] key_before(local@, i + 1, q) == (key_before(local@, i as int, q) || q
                    == k@) by {
                if q == k@ {
                    assert(local@[i as int].0 == q);
                }
            }
            assert(out.map() =~= Map::new(
                |q: Seq<char>|
                    key_before(local@, i + 1, q) && (keeps_incoming(inc, par, q) || keeps_local(
                        inc,
                        loc,
                        par,
                        q,
                    )),
                |q: Seq<char>| merged_map(inc, loc, par)[q],
            ));
        }
        i = i + 1;
    }
    proof {
        assert forall|q: Seq<char>|
            #[trigger] key_before(local@, i as int, q) == loc.contains_key(q) by {}
    }
    let mut i: usize = 0;
    while i < incoming.len()
        invariant
            incoming.wf(),
            local.wf(),
            p.wf(),
            p.map() == par,
            inc == incoming.map(),
            loc == local.map(),
            out.wf(),
            keys_sorted(out@),
            i <= incoming@.len(),
            out.map() == Map::new(
                |k: Seq<char>|
                    (loc.contains_key(k) && (keeps_incoming(inc, par, k) || keeps_local(
                        inc,
                        loc,
                        par,
                        k,
                    ))) || (key_before(incoming@, i as int, k) && keeps_incoming(inc, par, k)
                        && !loc.contains_key(k)),
                |k: Seq<char>| merged_map(inc, loc, par)[k],
            ),
        decreases incoming@.len() - i,
    {
        let (k, v) = incoming.entry(i);
        proof {
            lemma_entry_in_map(incoming@, i as int);
        }
        let new_key = local.get(k).is_none();
        let incoming_wins = match p.get(k) {
            None => true,
            Some(pv) => !(*pv == *v),
        };
        if new_key && incoming_wins {
            out.insert_sorted(k.clone(), v.clone());
        }
        proof {
            assert forall|q: Seq<char>|
                #[trigger] key_before(incoming@, i + 1, q) == (key_before(incoming@, i as int, q)
                    || q == k@) by {
                if q == k@ {
                    assert(incoming@[i as int].0 == q);
                }
            }
            assert(out.map() =~= Map::new(
                |q: Seq<char>|
                    (loc.contains_key(q) && (keeps_incoming(inc, par, q) || keeps_local(
                        inc,
                        loc,
                        par,
                        q,
                    ))) || (key_before(incoming@, i + 1, q) && keeps_incoming(inc, par, q)
                        && !loc.contains_key(q)),
                |q: Seq<char>| merged_map(inc, loc, par)[q],
            ));
        }
        i = i + 1;
    }
    proof {
        assert forall|q: Seq<char>|
            #[trigger] key_before(incoming@, i as int, q) == inc.contains_key(q) by {}
        assert(out.map() =~= merged_map(inc, loc, par));
    }
    if out.same_as(&incoming) {
        IncomingAction::TakeRemote { data: incoming }
    } else {
        IncomingAction::Merge { data: out }
    }
}

} // verus!
