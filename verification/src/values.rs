//! The substitution value source: an ordered string-keyed mapping extracted
//! from a JSON value, with the drop rules for non-leaf entries.

use vstd::prelude::*;
use vstd::string::StringExecFns;

verus! {

/// The pairs as the specifications see them.
pub open spec fn pairs_view(pairs: Seq<(String, String)>) -> Seq<(Seq<char>, Seq<char>)> {
    pairs.map_values(|pair: (String, String)| (pair.0@, pair.1@))
}

/// The first value stored under `key`, scanning the pairs left to right.
pub open spec fn lookup_pairs(
    pairs: Seq<(Seq<char>, Seq<char>)>,
    key: Seq<char>,
) -> Option<Seq<char>>
    decreases pairs.len(),
{
    if pairs.len() == 0 {
        None
    } else if pairs[0].0 == key {
        Some(pairs[0].1)
    } else {
        lookup_pairs(pairs.drop_first(), key)
    }
}

/// Looks `key` up among the pairs, returning the first value stored under it.
pub fn lookup_value(pairs: &Vec<(String, String)>, key: &String) -> (found: Option<String>)
    ensures
        match lookup_pairs(pairs_view(pairs@), key@) {
            Some(text) => found matches Some(value) && value@ == text,
            None => found is None,
        },
{
    let n = pairs.len();
    let mut idx: usize = 0;
    proof {
        assert(pairs_view(pairs@).skip(0) =~= pairs_view(pairs@));
    }
    while idx < n
        invariant
            0 <= idx <= n,
            n == pairs@.len(),
            lookup_pairs(pairs_view(pairs@), key@) == lookup_pairs(
                pairs_view(pairs@).skip(idx as int),
                key@,
            ),
        decreases n - idx,
    {
        let entry = &pairs[idx];
        proof {
            assert(pairs_view(pairs@).skip(idx as int)[0] == pairs_view(pairs@)[idx as int]);
            assert(pairs_view(pairs@).skip(idx as int).drop_first() =~= pairs_view(pairs@).skip(
                idx as int + 1,
            ));
        }
        if entry.0 == *key {
            return Some(entry.1.clone());
        }
        idx = idx + 1;
    }
    proof {
        assert(pairs_view(pairs@).skip(n as int) =~= Seq::<(Seq<char>, Seq<char>)>::empty());
    }
    None
}

/// One top-level entry value of a JSON object, reduced to what the
/// substitution rules read: a string, a number's decimal rendering, a
/// boolean, or some other (null, array, or object) value.
#[derive(Debug, Clone, PartialEq)]
pub enum LeafValue {
    Text(String),
    Number(String),
    Bool(bool),
    Other,
}

/// The shape of a `LeafValue` as the specifications see it.
pub enum LeafView {
    Text(Seq<char>),
    Number(Seq<char>),
    Bool(bool),
    Other,
}

impl View for LeafValue {
    type V = LeafView;

    open spec fn view(&self) -> LeafView {
        match self {
            LeafValue::Text(text) => LeafView::Text(text@),
            LeafValue::Number(text) => LeafView::Number(text@),
            LeafValue::Bool(flag) => LeafView::Bool(*flag),
            LeafValue::Other => LeafView::Other,
        }
    }
}

/// The canonical string form of a leaf, or `None` for a leaf that the
/// substitution rules drop.
pub open spec fn leaf_text(leaf: LeafView) -> Option<Seq<char>> {
    match leaf {
        LeafView::Text(text) => Some(text),
        LeafView::Number(text) => Some(text),
        LeafView::Bool(flag) => Some(if flag { ("true")@ } else { ("false")@ }),
        LeafView::Other => None,
    }
}

/// The entries as the specifications see them.
pub open spec fn entries_view(entries: Seq<(String, LeafValue)>) -> Seq<(Seq<char>, LeafView)> {
    entries.map_values(|entry: (String, LeafValue)| (entry.0@, entry.1@))
}

/// The ordered mapping that a sequence of object entries resolves to:
/// string, number, and boolean leaves keep their canonical string form, and
/// every other entry is dropped.
pub open spec fn resolved_pairs(
    entries: Seq<(Seq<char>, LeafView)>,
) -> Seq<(Seq<char>, Seq<char>)>
    decreases entries.len(),
{
    if entries.len() == 0 {
        Seq::<(Seq<char>, Seq<char>)>::empty()
    } else {
        let rest = resolved_pairs(entries.drop_first());
        match leaf_text(entries[0].1) {
            Some(text) => seq![(entries[0].0, text)] + rest,
            None => rest,
        }
    }
}

/// Resolves object entries to the ordered string-keyed mapping that
/// substitution uses, dropping every non-leaf entry.
pub fn resolve_values(entries: &Vec<(String, LeafValue)>) -> (pairs: Vec<(String, String)>)
    ensures
        pairs_view(pairs@) == resolved_pairs(entries_view(entries@)),
{
    let ghost all = entries_view(entries@);
    let n = entries.len();
    let mut pairs: Vec<(String, String)> = Vec::new();
    let mut idx: usize = 0;
    proof {
        assert(all.skip(0) =~= all);
        assert(pairs_view(pairs@) + resolved_pairs(all) =~= resolved_pairs(all));
    }
    while idx < n
        invariant
            0 <= idx <= n,
            n == entries@.len(),
            all == entries_view(entries@),
            resolved_pairs(all) == pairs_view(pairs@) + resolved_pairs(all.skip(idx as int)),
        decreases n - idx,
    {
        let entry = &entries[idx];
        proof {
            assert(all.skip(idx as int)[0] == all[idx as int]);
            assert(all.skip(idx as int).drop_first() =~= all.skip(idx as int + 1));
        }
        let ghost before = pairs@;
        match &entry.1 {
            LeafValue::Text(text) => {
                pairs.push((entry.0.clone(), text.clone()));
            },
            LeafValue::Number(text) => {
                pairs.push((entry.0.clone(), text.clone()));
            },
            LeafValue::Bool(flag) => {
                if *flag {
                    pairs.push((entry.0.clone(), String::from_str("true")));
                } else {
                    pairs.push((entry.0.clone(), String::from_str("false")));
                }
            },
            LeafValue::Other => {},
        }
        proof {
            match leaf_text(all[idx as int].1) {
                Some(text) => {
                    let head = seq![(all[idx as int].0, text)];
                    assert(pairs_view(pairs@) =~= pairs_view(before) + head);
                    assert((pairs_view(before) + head) + resolved_pairs(all.skip(idx as int + 1))
                        =~= pairs_view(before) + (head + resolved_pairs(all.skip(idx as int + 1))));
                },
                None => {},
            }
        }
        idx = idx + 1;
    }
    proof {
        assert(all.skip(n as int) =~= Seq::<(Seq<char>, LeafView)>::empty());
        assert(pairs_view(pairs@) + resolved_pairs(all.skip(n as int)) =~= pairs_view(pairs@));
    }
    pairs
}

/// `serde_json::Value` carried opaquely through the library's signatures.
#[verifier::external_type_specification]
#[verifier::external_body]
pub struct ExValue(serde_json::Value);

/// What decomposing a JSON value yields: `None` for a non-object, else the
/// object's entries. The result is a function of the value alone:
/// `serde_json`'s map iterates its entries in a fixed (key-sorted) order,
/// and a number's decimal rendering is fixed by the number.
pub uninterp spec fn json_entries_of(value: serde_json::Value) -> Option<
    Seq<(Seq<char>, LeafView)>,
>;

/// Relies on `serde_json::Value`'s variants, `serde_json::Map::iter`, and
/// `serde_json::Number::to_string`: a JSON object yields its entries, in
/// the order the map iterates them, each entry value told apart as a
/// string, a number (carried as the decimal rendering that `serde_json`
/// writes), a boolean, or some other value; any non-object shape yields
/// `None`.
#[verifier::external_body]
pub(crate) fn json_object_entries(value: &serde_json::Value) -> (entries: Option<
    Vec<(String, LeafValue)>,
>)
    ensures
        match json_entries_of(*value) {
            Some(decomposed) => entries matches Some(found) && entries_view(found@) == decomposed,
            None => entries is None,
        },
{
    let fields = match value {
        serde_json::Value::Object(fields) => fields,
        _ => return None,
    };
    let mut out = Vec::new();
    for (key, field) in fields.iter() {
        let leaf = match field {
            serde_json::Value::String(text) => LeafValue::Text(text.clone()),
            serde_json::Value::Number(number) => LeafValue::Number(number.to_string()),
            serde_json::Value::Bool(flag) => LeafValue::Bool(*flag),
            _ => LeafValue::Other,
        };
        out.push((key.clone(), leaf));
    }
    Some(out)
}

} // verus!
