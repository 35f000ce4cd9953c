use vstd::prelude::*;

verus! {

/// The pretty-printed JSON array whose entries are one-field objects
/// `{ key: value }`, one per value, in order.
pub uninterp spec fn pretty_records_json(key: Seq<char>, values: Seq<Seq<char>>) -> Seq<char>;

/// Relies on serde_json's `to_string_pretty`, applied to a list of one-entry
/// string maps. Serialisation fails only for a failing `Serialize` impl or a
/// non-string map key, neither of which occurs here.
#[verifier::external_body]
pub(crate) fn records_json(key: &str, values: &Vec<String>) -> (r: String)
    ensures
        r@ == pretty_records_json(key@, values@.map_values(|v: String| v@)),
{
    let records: Vec<std::collections::BTreeMap<&str, &str>> = values
        .iter()
        .map(|v| std::collections::BTreeMap::from([(key, v.as_str())]))
        .collect();
    serde_json::to_string_pretty(&records).expect("string-keyed maps always serialise")
}

} // verus!
