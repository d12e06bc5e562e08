use roxlap_game_demo::impact::{settle_projectiles, Strike};

#[test]
fn expired_and_missing_projectiles() {
    let expired = vec![true, false, false];
    let hits = vec![vec![Some([1, 1, 1])], vec![None], vec![Some([2, 2, 2])]];
    let out = settle_projectiles(&expired, &hits);
    // The expired one vanishes without effect, the miss flies on.
    assert_eq!(out.spent, vec![0, 2]);
    assert_eq!(
        out.strikes,
        vec![Strike {
            asteroid: 0,
            projectile: 2,
            voxel: [2, 2, 2]
        }]
    );
}

#[test]
fn projectile_stops_at_first_asteroid() {
    let expired = vec![false];
    let hits = vec![vec![None, Some([3, 0, 0]), Some([4, 0, 0])]];
    let out = settle_projectiles(&expired, &hits);
    assert_eq!(out.spent, vec![0]);
    assert_eq!(
        out.strikes,
        vec![Strike {
            asteroid: 1,
            projectile: 0,
            voxel: [3, 0, 0]
        }]
    );
}

#[test]
fn earliest_projectile_wins_an_asteroid() {
    let expired = vec![false, false, false];
    let hits = vec![
        vec![None, Some([1, 0, 0])],
        vec![None, Some([2, 0, 0])],
        vec![Some([5, 5, 5]), None],
    ];
    let out = settle_projectiles(&expired, &hits);
    assert_eq!(out.spent, vec![0, 1, 2]);
    assert_eq!(
        out.strikes,
        vec![
            Strike {
                asteroid: 1,
                projectile: 0,
                voxel: [1, 0, 0]
            },
            Strike {
                asteroid: 0,
                projectile: 2,
                voxel: [5, 5, 5]
            },
        ]
    );
}

#[test]
fn nothing_in_flight() {
    let out = settle_projectiles(&vec![], &vec![]);
    assert!(out.spent.is_empty());
    assert!(out.strikes.is_empty());
}
