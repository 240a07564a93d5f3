use agent_microtone::SubTritTier;

#[test]
fn tiers_are_distinct_values() {
    let tiers = [
        SubTritTier::Negligible,
        SubTritTier::Subtle,
        SubTritTier::Moderate,
        SubTritTier::Significant,
    ];
    for (i, a) in tiers.iter().enumerate() {
        for (j, b) in tiers.iter().enumerate() {
            assert_eq!(a == b, i == j);
        }
    }
    let copy = tiers[2];
    assert_eq!(copy, SubTritTier::Moderate);
    assert_eq!(format!("{:?}", SubTritTier::Subtle), "Subtle");
}
