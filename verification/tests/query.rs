use prismdmx::ids::{FixtureId, UniverseId};
use prismdmx::query::{PatchConflict, StoreMode};

fn conflict() -> PatchConflict {
    PatchConflict {
        universe: UniverseId::new(1),
        from: 3,
        to: 4,
        first: FixtureId::new(1),
        second: FixtureId::new(2),
    }
}

#[test]
fn a_conflict_says_which_fixture_wins() {
    assert_eq!(
        conflict().to_string(),
        "fixtures 1 and 2 share universe 1 channels 3-4; 2 wins"
    );
}

#[test]
fn conflicts_sort_into_patch_sheet_order() {
    let later = PatchConflict {
        universe: UniverseId::new(2),
        from: 1,
        ..conflict()
    };
    let further_along = PatchConflict {
        from: 9,
        ..conflict()
    };
    let mut all = vec![later, further_along, conflict()];
    all.sort_unstable();
    assert_eq!(all, vec![conflict(), further_along, later]);
}

#[test]
fn a_store_merges_unless_told_otherwise() {
    assert_eq!(StoreMode::default(), StoreMode::Merge);
}

#[test]
fn a_conflict_spells_every_number_in_full() {
    let wide = PatchConflict {
        universe: UniverseId::new(4_096),
        from: 500,
        to: 512,
        first: FixtureId::new(9),
        second: FixtureId::new(1_000_001),
    };
    assert_eq!(
        wide.to_string(),
        "fixtures 9 and 1000001 share universe 4096 channels 500-512; 1000001 wins"
    );
}
