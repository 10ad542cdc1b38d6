use vstd::prelude::*;

use std::collections::HashMap;

verus! {

broadcast use vstd::std_specs::hash::group_hash_axioms;

/// The Steam Deck compatibility categories, by number.
pub open spec fn steamdeck_categories() -> Map<u8, Seq<char>> {
    map![
        0u8 => "SteamDeckVerified_Category_Unknown"@,
        1u8 => "SteamDeckVerified_Category_Unsupported"@,
        2u8 => "SteamDeckVerified_Category_Playable"@,
        3u8 => "SteamDeckVerified_Category_Verified"@,
    ]
}

/// The names of the Steam Deck compatibility categories, by number.
pub fn steamdeck_compatibility_map() -> (r: HashMap<u8, &'static str>)
    ensures
        r@.map_values(|s: &'static str| s@) == steamdeck_categories(),
{
    let mut map: HashMap<u8, &'static str> = HashMap::new();
    map.insert(0, "SteamDeckVerified_Category_Unknown");
    map.insert(1, "SteamDeckVerified_Category_Unsupported");
    map.insert(2, "SteamDeckVerified_Category_Playable");
    map.insert(3, "SteamDeckVerified_Category_Verified");
    assert(map@.map_values(|s: &'static str| s@) =~= steamdeck_categories());
    map
}

/// The name of the Steam Deck compatibility category `n`, where there is one.
pub fn steamdeck_category_name(n: u8) -> (r: Option<&'static str>)
    ensures
        match r {
            Some(s) => steamdeck_categories().contains_key(n) && steamdeck_categories()[n] == s@,
            None => !steamdeck_categories().contains_key(n),
        },
{
    let map = steamdeck_compatibility_map();
    match map.get(&n) {
        Some(s) => {
            assert(map@.map_values(|s: &'static str| s@)[n] == s@);
            Some(*s)
        },
        None => None,
    }
}

} // verus!
