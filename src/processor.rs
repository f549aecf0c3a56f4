//! Configurable filters: what every input or output declares about itself,
//! and the check that its settings hold the fields it needs.

use vstd::prelude::*;
use std::collections::HashMap;

verus! {

/// The keys of a settings map, as character sequences.
pub open spec fn setting_keys(m: HashMap<String, String>) -> Set<Seq<char>> {
    m@.dom().map(|k: String| k@)
}

/// Relies on `HashMap::contains_key`: true when some key spells `key`.
#[verifier::external_body]
fn has_setting(m: &HashMap<String, String>, key: &str) -> (r: bool)
    ensures
        r == setting_keys(*m).contains(key@),
{
    m.contains_key(key)
}

/// The fields of `required`, in order, that the settings lack; all of them
/// when there are no settings.
pub open spec fn missing_fields(keys: Option<Set<Seq<char>>>, required: Seq<Seq<char>>) -> Seq<
    Seq<char>,
>
    decreases required.len(),
{
    if required.len() == 0 {
        Seq::empty()
    } else {
        let rest = missing_fields(keys, required.drop_last());
        match keys {
            Some(k) => if k.contains(required.last()) {
                rest
            } else {
                rest.push(required.last())
            },
            None => rest.push(required.last()),
        }
    }
}

pub open spec fn strs_view(v: Seq<&str>) -> Seq<Seq<char>> {
    v.map_values(|s: &str| s@)
}

pub open spec fn keys_of(config: Option<HashMap<String, String>>) -> Option<Set<Seq<char>>> {
    match config {
        Some(m) => Some(setting_keys(m)),
        None => None,
    }
}

/// Lists the fields of `required` that `config` lacks, in order.
pub fn find_missing<'a>(config: &Option<HashMap<String, String>>, required: &Vec<&'a str>) -> (r: Vec<
    &'a str,
>)
    ensures
        strs_view(r@) == missing_fields(keys_of(*config), strs_view(required@)),
{
    let ghost req = strs_view(required@);
    let mut missing: Vec<&'a str> = Vec::new();
    let mut i: usize = 0;
    while i < required.len()
        invariant
            0 <= i <= required.len(),
            req == strs_view(required@),
            strs_view(missing@) == missing_fields(keys_of(*config), req.take(i as int)),
        decreases required.len() - i,
    {
        let f = required[i];
        assert(req.take(i as int + 1).drop_last() =~= req.take(i as int));
        assert(req.take(i as int + 1).last() == f@);
        let present = match config {
            Some(m) => has_setting(m, f),
            None => false,
        };
        if !present {
            missing.push(f);
        }
        assert(strs_view(missing@) =~= missing_fields(keys_of(*config), req.take(i as int + 1)));
        i = i + 1;
    }
    assert(req.take(i as int) =~= req);
    missing
}

/// An input or output that a configuration can declare.
pub trait ConfigurableFilter {
    /// The name it is known by in messages.
    fn human_name(&self) -> &str;

    /// The settings it cannot work without.
    fn mandatory_fields(&self) -> Vec<&str>;

    /// Checks that `optional_config` holds every field of `required_fields`;
    /// fails with those it lacks, in order.
    fn requires_fields<'a>(
        &self,
        optional_config: &Option<HashMap<String, String>>,
        required_fields: Vec<&'a str>,
    ) -> (r: Result<(), Vec<&'a str>>)
        ensures
            r is Ok <==> missing_fields(keys_of(*optional_config), strs_view(required_fields@)).len()
                == 0,
            r is Err ==> strs_view(r->Err_0@) == missing_fields(
                keys_of(*optional_config),
                strs_view(required_fields@),
            ),
    {
        let missing = find_missing(optional_config, &required_fields);
        if missing.len() > 0 {
            Err(missing)
        } else {
            Ok(())
        }
    }
}

} // verus!
