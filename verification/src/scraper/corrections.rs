//! Local corrections of known item-data bugs in the upstream catalog: names
//! that do not match the label in the game, and ids that are inverted against
//! it.
//!
//! Screenshots are the ground truth and the data is patched to match them.
//! There is one entry for each observed divergence.

use crate::text::same_text;
use vstd::prelude::*;

verus! {

/// The corrected name of an item, by its corrected id.
pub open spec fn name_correction(id: Seq<char>) -> Option<Seq<char>> {
    if id == "misc_b_tapeplayer"@ {
        // A cassette deck, named like the actual civil radio upstream.
        Some("Tape player"@)
    } else if id == "misc_barcleaner"@ {
        // A spray bottle, named like the household cleaner upstream.
        Some("Cleaner"@)
    } else if id == "misc_b_nail"@ {
        Some("Boxed Nails"@)
    } else if id == "misc_b_battery_1"@ {
        // The yellow pack of the two size D batteries.
        Some("Size D battery1"@)
    } else if id == "misc_b_battery_2"@ {
        // The white pack.
        Some("Size D battery2"@)
    } else {
        None
    }
}

/// The corrected id of an item, by its upstream id. The game's own slugs of
/// the size D batteries are inverted against its labels.
pub open spec fn id_correction(upstream_id: Seq<char>) -> Option<Seq<char>> {
    if upstream_id == "misc_1batterie_2"@ {
        Some("misc_b_battery_1"@)
    } else if upstream_id == "misc_b_1battery"@ {
        Some("misc_b_battery_2"@)
    } else {
        None
    }
}

/// The display name of an item: the corrected one where there is one, else the
/// upstream name.
pub fn correct_name(id: &str, upstream_name: &str) -> (r: String)
    ensures
        r@ == match name_correction(id@) {
            Some(fixed) => fixed,
            None => upstream_name@,
        },
{
    if same_text(id, "misc_b_tapeplayer") {
        "Tape player".to_owned()
    } else if same_text(id, "misc_barcleaner") {
        "Cleaner".to_owned()
    } else if same_text(id, "misc_b_nail") {
        "Boxed Nails".to_owned()
    } else if same_text(id, "misc_b_battery_1") {
        "Size D battery1".to_owned()
    } else if same_text(id, "misc_b_battery_2") {
        "Size D battery2".to_owned()
    } else {
        upstream_name.to_owned()
    }
}

/// The id of an item: the corrected one where there is one, else the upstream
/// id. It comes before every other correction.
pub fn correct_id(upstream_id: &str) -> (r: &str)
    ensures
        r@ == match id_correction(upstream_id@) {
            Some(fixed) => fixed,
            None => upstream_id@,
        },
{
    if same_text(upstream_id, "misc_1batterie_2") {
        "misc_b_battery_1"
    } else if same_text(upstream_id, "misc_b_1battery") {
        "misc_b_battery_2"
    } else {
        upstream_id
    }
}

/// Correcting an id that was corrected changes nothing, and no two upstream
/// ids of the table become the same.
pub proof fn law_id_corrections_settle(id: Seq<char>)
    ensures
        match id_correction(id) {
            Some(fixed) => id_correction(fixed) is None && name_correction(fixed) is Some,
            None => true,
        },
        id_correction("misc_1batterie_2"@) != id_correction("misc_b_1battery"@),
{
    reveal_strlit("misc_1batterie_2");
    reveal_strlit("misc_b_1battery");
    reveal_strlit("misc_b_battery_1");
    reveal_strlit("misc_b_battery_2");
    reveal_strlit("misc_b_tapeplayer");
    reveal_strlit("misc_barcleaner");
    reveal_strlit("misc_b_nail");
    assert("misc_b_battery_1"@.len() == 16);
    assert("misc_1batterie_2"@[5] == '1');
    assert("misc_b_battery_1"@[5] == 'b');
    assert("misc_b_battery_2"@[5] == 'b');
    assert("misc_b_battery_1"@[15] == '1');
    assert("misc_b_battery_2"@[15] == '2');
    assert("misc_b_1battery"@.len() == 15);
}

} // verus!
