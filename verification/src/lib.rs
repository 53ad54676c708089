//! An HTML-to-PDF and PDF-to-image service: its settings, request rules, page
//! selection, signed download links and error answers.
pub mod config;
pub mod decimal;
pub mod error;
pub mod models;
pub mod routes;
pub mod services;
pub mod strmap;
pub mod text;

use vstd::prelude::*;
use crate::config::{config_error, config_matches, Config};
use crate::strmap::StringMap;

verus! {

/// The variables `overrides` set, later pairs replacing earlier ones.
pub open spec fn overrides_map(overrides: Seq<(&str, &str)>) -> Map<Seq<char>, Seq<char>>
    decreases overrides.len(),
{
    if overrides.len() == 0 {
        Map::empty()
    } else {
        let last = overrides.last();
        overrides_map(overrides.drop_last()).insert(last.0@, last.1@)
    }
}

/// The settings given by `overrides` alone, which must all be valid.
pub fn config_with(overrides: &[(&str, &str)]) -> (c: Config)
    requires
        config_error(overrides_map(overrides@)) is None,
    ensures
        config_matches(overrides_map(overrides@), c),
{
    let mut map = StringMap::new();
    let mut i: usize = 0;
    while i < overrides.len()
        invariant
            i <= overrides@.len(),
            map@ == overrides_map(overrides@.take(i as int)),
        decreases overrides@.len() - i,
    {
        let (k, v) = overrides[i];
        assert(overrides@.take((i + 1) as int).drop_last() == overrides@.take(i as int));
        let _ = map.insert(String::from_str(k), String::from_str(v));
        i = i + 1;
    }
    assert(overrides@.take(overrides@.len() as int) == overrides@);
    Config::from_map(&map)
}

} // verus!
