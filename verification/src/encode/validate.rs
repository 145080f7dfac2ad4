//! What can be written: a value is checked, node by node in the order of
//! writing, before any of it reaches a sink.

use crate::error::{ErrorView, MsgPackErr};
use crate::timestamp::TIMESTAMP_TYPE;
use crate::value::{lemma_array_view, lemma_mapping_view, pair_views, views, Value};
use crate::wire::{
    array_rejection, items_rejection, lemma_items_rejection_stays, lemma_pairs_rejection_stays,
    map_rejection, pairs_rejection, rejection, ARRAY32, BIN32, EXT32, MAP32, MAX_LEN, STR32,
};
use vstd::prelude::*;

verus! {

/// `r` is the refusal that `rejection` calls for: an error with that byte,
/// or success where there is none.
pub open spec fn refused(r: Result<(), MsgPackErr>, rejection: Option<u8>) -> bool {
    match rejection {
        Some(b) => r matches Err(e) && e@ == ErrorView::InvalidFormat(b),
        None => r is Ok,
    }
}

/// Tells whether a value can be written, and if not, reports the first node
/// that cannot.
pub fn validate(val: &Value) -> (r: Result<(), MsgPackErr>)
    ensures
        refused(r, rejection(val@)),
    decreases val,
{
    match val {
        Value::String(s) => {
            if s.as_str().as_bytes().len() as u64 > MAX_LEN {
                Err(MsgPackErr::InvalidFormat(STR32))
            } else {
                Ok(())
            }
        },
        Value::Binary(b) => {
            if b.len() as u64 > MAX_LEN {
                Err(MsgPackErr::InvalidFormat(BIN32))
            } else {
                Ok(())
            }
        },
        Value::Array(items) => {
            proof {
                lemma_array_view(*items);
            }
            validate_arr(items.as_slice())
        },
        Value::Mapping(pairs) => {
            proof {
                lemma_mapping_view(*pairs);
            }
            validate_map(pairs.as_slice())
        },
        Value::Extension(e) => {
            let len = e.data.len();
            if e.type_id == TIMESTAMP_TYPE {
                if len == 4 || len == 8 || len == 12 {
                    Ok(())
                } else {
                    Err(MsgPackErr::InvalidFormat(EXT32))
                }
            } else if len as u64 > MAX_LEN {
                Err(MsgPackErr::InvalidFormat(EXT32))
            } else {
                Ok(())
            }
        },
        _ => Ok(()),
    }
}

/// Tells whether an array of these elements can be written.
pub fn validate_arr(arr: &[Value]) -> (r: Result<(), MsgPackErr>)
    ensures
        refused(r, array_rejection(views(arr@))),
    decreases arr@,
{
    let n = arr.len();
    if n as u64 > MAX_LEN {
        return Err(MsgPackErr::InvalidFormat(ARRAY32));
    }
    let mut i: usize = 0;
    while i < n
        invariant
            n == arr@.len(),
            i <= n,
            n <= MAX_LEN,
            items_rejection(views(arr@), i as nat) is None,
        decreases n - i,
    {
        match validate(&arr[i]) {
            Err(e) => {
                proof {
                    assert(views(arr@)[i as int] == arr@[i as int]@);
                    assert(items_rejection(views(arr@), (i + 1) as nat) == rejection(
                        arr@[i as int]@,
                    ));
                    lemma_items_rejection_stays(views(arr@), (i + 1) as nat, n as nat);
                }
                return Err(e);
            },
            Ok(()) => {
                assert(views(arr@)[i as int] == arr@[i as int]@);
            },
        }
        i += 1;
    }
    Ok(())
}

/// Tells whether a map of these pairs can be written.
pub fn validate_map(map: &[(Value, Value)]) -> (r: Result<(), MsgPackErr>)
    ensures
        refused(r, map_rejection(pair_views(map@))),
    decreases map@,
{
    let n = map.len();
    if n as u64 > MAX_LEN {
        return Err(MsgPackErr::InvalidFormat(MAP32));
    }
    let mut i: usize = 0;
    while i < n
        invariant
            n == map@.len(),
            i <= n,
            n <= MAX_LEN,
            pairs_rejection(pair_views(map@), i as nat) is None,
        decreases n - i,
    {
        match validate(&map[i].0) {
            Err(e) => {
                proof {
                    assert(pair_views(map@)[i as int].0 == map@[i as int].0@);
                    assert(pairs_rejection(pair_views(map@), (i + 1) as nat) == rejection(
                        map@[i as int].0@,
                    ));
                    lemma_pairs_rejection_stays(pair_views(map@), (i + 1) as nat, n as nat);
                }
                return Err(e);
            },
            Ok(()) => {},
        }
        match validate(&map[i].1) {
            Err(e) => {
                proof {
                    assert(pair_views(map@)[i as int].0 == map@[i as int].0@);
                    assert(pair_views(map@)[i as int].1 == map@[i as int].1@);
                    assert(pairs_rejection(pair_views(map@), (i + 1) as nat) == rejection(
                        map@[i as int].1@,
                    ));
                    lemma_pairs_rejection_stays(pair_views(map@), (i + 1) as nat, n as nat);
                }
                return Err(e);
            },
            Ok(()) => {
                assert(pair_views(map@)[i as int].0 == map@[i as int].0@);
                assert(pair_views(map@)[i as int].1 == map@[i as int].1@);
            },
        }
        i += 1;
    }
    Ok(())
}

} // verus!
