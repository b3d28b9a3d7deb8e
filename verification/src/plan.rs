//! The planner: turns a request body into the sequence of writes to carry
//! out. A body that is not a JSON array yields no writes; otherwise items are
//! planned in order, and the first malformed item stops the batch, leaving
//! the writes planned so far in place.

use vstd::prelude::*;
use crate::json::{
    item_id,
    item_ok,
    item_type,
    json_array_of,
    json_value_of,
    parse_json_array,
    parsed,
    text_of,
    value_as_i64,
    value_as_str,
    value_pointer,
    value_text,
};
use crate::paths::{dir_for, dir_string, file_for, file_string};
use crate::store::SpecWrite;

verus! {

/// One write the planner decided on: the directory to create, the file path,
/// the serialized item to store there, and its journal identifier.
pub struct PlannedWrite {
    pub dir: String,
    pub path: String,
    pub contents: String,
    pub id: i64,
}

impl View for PlannedWrite {
    type V = SpecWrite;

    open spec fn view(&self) -> SpecWrite {
        SpecWrite {
            dir: self.dir@,
            path: self.path@,
            contents: self.contents@,
            id: self.id as int,
        }
    }
}

/// The write a well-formed item calls for.
pub open spec fn write_for(v: serde_json::Value) -> SpecWrite {
    SpecWrite {
        dir: dir_for(item_type(v).unwrap()),
        path: file_for(item_type(v).unwrap(), item_id(v).unwrap() as int),
        contents: text_of(v),
        id: item_id(v).unwrap() as int,
    }
}

/// How many items at the front of the batch are well-formed: the whole batch,
/// or everything before the first malformed item.
pub open spec fn ok_prefix_len(vs: Seq<serde_json::Value>) -> int
    decreases vs.len(),
{
    if vs.len() == 0 {
        0
    } else if !item_ok(vs[0]) {
        0
    } else {
        1 + ok_prefix_len(vs.drop_first())
    }
}

/// The writes a batch calls for: one per item before the first malformed one.
pub open spec fn writes_of(vs: Seq<serde_json::Value>) -> Seq<SpecWrite> {
    Seq::new(ok_prefix_len(vs) as nat, |i: int| write_for(vs[i]))
}

pub proof fn lemma_ok_prefix_len_bounds(vs: Seq<serde_json::Value>)
    ensures
        0 <= ok_prefix_len(vs) <= vs.len(),
    decreases vs.len(),
{
    if vs.len() > 0 && item_ok(vs[0]) {
        lemma_ok_prefix_len_bounds(vs.drop_first());
    }
}

/// The well-formed prefix ends exactly at the first malformed item.
pub proof fn lemma_ok_prefix_len_at(vs: Seq<serde_json::Value>, i: int)
    requires
        0 <= i <= vs.len(),
        forall|j: int| 0 <= j < i ==> item_ok(#[trigger] vs[j]),
        i < vs.len() ==> !item_ok(vs[i]),
    ensures
        ok_prefix_len(vs) == i,
    decreases vs.len(),
{
    if vs.len() > 0 && i > 0 {
        let rest = vs.drop_first();
        assert forall|j: int| 0 <= j < i - 1 implies item_ok(#[trigger] rest[j]) by {
            assert(rest[j] == vs[j + 1]);
        }
        if i - 1 < rest.len() {
            assert(rest[i - 1] == vs[i]);
        }
        lemma_ok_prefix_len_at(rest, i - 1);
    }
}

/// Plans one item the parser produced. Succeeds exactly on a well-formed
/// item — one holding a string `type` field and an integer `journal.id` —
/// and then yields the write it calls for; parsing the planned contents
/// back yields the item.
pub fn plan_item(v: &serde_json::Value) -> (r: Option<PlannedWrite>)
    requires
        parsed(*v),
    ensures
        r is Some <==> item_ok(*v),
        r matches Some(w) ==> w@ == write_for(*v) && json_value_of(w@.contents) == Some(*v),
{
    let t_node = match value_pointer(v, "/type") {
        Some(t) => t,
        None => {
            return None;
        },
    };
    let t = match value_as_str(t_node) {
        Some(s) => s,
        None => {
            return None;
        },
    };
    let id_node = match value_pointer(v, "/journal/id") {
        Some(j) => j,
        None => {
            return None;
        },
    };
    let id = match value_as_i64(id_node) {
        Some(i) => i,
        None => {
            return None;
        },
    };
    let dir = dir_string(t);
    let path = file_string(t, id);
    let contents = value_text(v);
    proof {
        assert(item_type(*v) == Some(t@));
        assert(item_id(*v) == Some(id));
    }
    Some(PlannedWrite { dir, path, contents, id })
}

/// The planner's verdict on one request body: the writes to carry out, in
/// order, and whether the whole body was accepted.
pub struct RequestPlan {
    pub writes: Vec<PlannedWrite>,
    pub accepted: bool,
}

/// Plans a whole request. A body that is not a JSON array is rejected and
/// yields no writes. Otherwise the items are planned in order up to the first
/// malformed one; the batch is accepted exactly when every item is
/// well-formed. Each planned write is the one its item calls for, and its
/// contents parse back to that item.
pub fn plan_request(body: &str) -> (r: RequestPlan)
    ensures
        json_array_of(body@) is None ==> !r.accepted && r.writes@.len() == 0,
        json_array_of(body@) matches Some(vs) ==> {
            &&& r.writes@.len() == ok_prefix_len(vs)
            &&& forall|i: int| 0 <= i < r.writes@.len() ==> (#[trigger] r.writes@[i])@
                == write_for(vs[i])
            &&& forall|i: int| 0 <= i < r.writes@.len() ==> json_value_of(
                (#[trigger] r.writes@[i])@.contents,
            ) == Some(vs[i])
            &&& (r.accepted <==> ok_prefix_len(vs) == vs.len())
        },
{
    let items = match parse_json_array(body) {
        Some(items) => items,
        None => {
            return RequestPlan { writes: Vec::new(), accepted: false };
        },
    };
    let ghost vs = items@;
    proof {
        lemma_ok_prefix_len_bounds(vs);
    }
    let mut writes: Vec<PlannedWrite> = Vec::new();
    let n = items.len();
    let mut i: usize = 0;
    while i < n
        invariant
            n == items@.len(),
            vs == items@,
            json_array_of(body@) == Some(vs),
            forall|j: int| 0 <= j < n ==> parsed(#[trigger] vs[j]),
            i <= n,
            writes@.len() == i,
            forall|j: int| 0 <= j < i ==> item_ok(#[trigger] vs[j]),
            forall|j: int| 0 <= j < i ==> (#[trigger] writes@[j])@ == write_for(vs[j]),
            forall|j: int| 0 <= j < i ==> json_value_of((#[trigger] writes@[j])@.contents)
                == Some(vs[j]),
        decreases n - i,
    {
        match plan_item(&items[i]) {
            Some(w) => {
                writes.push(w);
                i = i + 1;
            },
            None => {
                proof {
                    lemma_ok_prefix_len_at(vs, i as int);
                }
                return RequestPlan { writes, accepted: false };
            },
        }
    }
    proof {
        lemma_ok_prefix_len_at(vs, n as int);
    }
    RequestPlan { writes, accepted: true }
}

/// A batch of well-formed items with pairwise distinct `(type, id)` pairs is
/// planned whole, in order, and carrying the plan out on an empty store
/// leaves exactly one file per item, at the item's path, holding the item's
/// serialized text.
pub proof fn lemma_valid_batch(vs: Seq<serde_json::Value>)
    requires
        forall|i: int| 0 <= i < vs.len() ==> item_ok(#[trigger] vs[i]),
        forall|i: int, j: int| 0 <= i < j < vs.len() ==> !(item_type(vs[i]) == item_type(vs[j])
            && item_id(vs[i]) == item_id(vs[j])),
    ensures
        writes_of(vs).len() == vs.len(),
        forall|i: int| 0 <= i < vs.len() ==> writes_of(vs)[i] == write_for(#[trigger] vs[i]),
        crate::store::fs_after(Map::empty(), writes_of(vs)).dom().finite(),
        crate::store::fs_after(Map::empty(), writes_of(vs)).dom().len() == vs.len(),
        forall|i: int| 0 <= i < vs.len() ==> {
            let m = crate::store::fs_after(Map::empty(), writes_of(vs));
            m.contains_key(write_for(#[trigger] vs[i]).path) && m[write_for(vs[i]).path]
                == write_for(vs[i]).contents
        },
{
    lemma_ok_prefix_len_at(vs, vs.len() as int);
    let ws = writes_of(vs);
    assert forall|i: int, j: int| 0 <= i < j < ws.len() implies ws[i].path != ws[j].path by {
        if ws[i].path == ws[j].path {
            crate::paths::lemma_file_for_injective(
                item_type(vs[i]).unwrap(),
                item_id(vs[i]).unwrap() as int,
                item_type(vs[j]).unwrap(),
                item_id(vs[j]).unwrap() as int,
            );
        }
    }
    assert(Map::<Seq<char>, Seq<char>>::empty().dom() =~= Set::<Seq<char>>::empty());
    crate::store::lemma_fs_after_distinct(Map::empty(), ws);
    let m = crate::store::fs_after(Map::empty(), ws);
    assert forall|i: int| 0 <= i < vs.len() implies m.contains_key(
        write_for(#[trigger] vs[i]).path,
    ) && m[write_for(vs[i]).path] == write_for(vs[i]).contents by {
        assert(ws[i] == write_for(vs[i]));
        assert(m.contains_key(ws[i].path) && m[ws[i].path] == ws[i].contents);
    }
}

/// A batch whose first malformed item stands at position `k` keeps exactly
/// the writes of the items before it: carrying the plan out on an empty
/// store leaves one file per item before `k`, and — when no two well-formed
/// items share a `(type, id)` pair — none for the malformed item or anything
/// after it.
pub proof fn lemma_first_bad_item_stops_batch(vs: Seq<serde_json::Value>, k: int)
    requires
        0 <= k < vs.len(),
        forall|j: int| 0 <= j < k ==> item_ok(#[trigger] vs[j]),
        !item_ok(vs[k]),
        forall|i: int, j: int|
            0 <= i < j < vs.len() && item_ok(vs[i]) && item_ok(vs[j]) ==> !(item_type(vs[i])
                == item_type(vs[j]) && item_id(vs[i]) == item_id(vs[j])),
    ensures
        writes_of(vs).len() == k,
        forall|j: int| 0 <= j < k ==> writes_of(vs)[j] == write_for(#[trigger] vs[j]),
        crate::store::fs_after(Map::empty(), writes_of(vs)).dom().finite(),
        crate::store::fs_after(Map::empty(), writes_of(vs)).dom().len() == k,
        forall|j: int| 0 <= j < k ==> {
            let m = crate::store::fs_after(Map::empty(), writes_of(vs));
            m.contains_key(write_for(#[trigger] vs[j]).path) && m[write_for(vs[j]).path]
                == write_for(vs[j]).contents
        },
        forall|j: int|
            k <= j < vs.len() && item_ok(#[trigger] vs[j]) ==> !crate::store::fs_after(
                Map::empty(),
                writes_of(vs),
            ).contains_key(write_for(vs[j]).path),
{
    lemma_ok_prefix_len_at(vs, k);
    let ws = writes_of(vs);
    assert forall|i: int, j: int| 0 <= i < j < ws.len() implies ws[i].path != ws[j].path by {
        if ws[i].path == ws[j].path {
            crate::paths::lemma_file_for_injective(
                item_type(vs[i]).unwrap(),
                item_id(vs[i]).unwrap() as int,
                item_type(vs[j]).unwrap(),
                item_id(vs[j]).unwrap() as int,
            );
        }
    }
    assert(Map::<Seq<char>, Seq<char>>::empty().dom() =~= Set::<Seq<char>>::empty());
    crate::store::lemma_fs_after_distinct(Map::empty(), ws);
    let m = crate::store::fs_after(Map::empty(), ws);
    assert forall|j: int| 0 <= j < k implies m.contains_key(write_for(#[trigger] vs[j]).path)
        && m[write_for(vs[j]).path] == write_for(vs[j]).contents by {
        assert(ws[j] == write_for(vs[j]));
        assert(m.contains_key(ws[j].path) && m[ws[j].path] == ws[j].contents);
    }
    assert forall|j: int| k <= j < vs.len() && item_ok(#[trigger] vs[j]) implies !m.contains_key(
        write_for(vs[j]).path,
    ) by {
        let p = write_for(vs[j]).path;
        assert forall|i: int| 0 <= i < ws.len() implies (#[trigger] ws[i].path) != p by {
            if ws[i].path == p {
                crate::paths::lemma_file_for_injective(
                    item_type(vs[i]).unwrap(),
                    item_id(vs[i]).unwrap() as int,
                    item_type(vs[j]).unwrap(),
                    item_id(vs[j]).unwrap() as int,
                );
            }
        }
        crate::store::lemma_fs_after_frame(Map::empty(), ws, p);
    }
}

} // verus!
