use riag::magic::{
    bitmask_permutations, bishop_mask, generate_bishop_attacks, generate_bishop_magic,
    generate_rook_attacks, generate_rook_magic, popcount, rook_mask,
};

#[test]
fn rook_mask_of_the_corner() {
    // b1..g1 and a2..a7
    assert_eq!(rook_mask(0), 0x000101010101017E);
}

#[test]
fn bishop_mask_of_the_corner() {
    // b2..g7
    assert_eq!(bishop_mask(0), 0x0040201008040200);
}

#[test]
fn rook_attacks_on_an_empty_board() {
    assert_eq!(generate_rook_attacks(0, 0), 0x01010101010101FE);
}

#[test]
fn rook_attacks_stop_at_the_first_blocker() {
    // blocker on c1: the east ray ends there and includes it
    let attacks = generate_rook_attacks(0, 1 << 2);
    assert_eq!(attacks & 0xFF, 0b110);
}

#[test]
fn bishop_attacks_stop_at_the_first_blocker() {
    let attacks = generate_bishop_attacks(0, 1 << 18);
    assert_eq!(attacks, (1 << 9) | (1 << 18));
}

#[test]
fn permutations_enumerate_every_subset() {
    let mask = rook_mask(0);
    let perms = bitmask_permutations(mask);
    assert_eq!(perms.len(), 1 << popcount(mask));
    for p in &perms {
        assert_eq!(p & !mask, 0);
    }
    let mut sorted: Vec<u64> = perms.clone();
    sorted.sort();
    sorted.dedup();
    assert_eq!(sorted.len(), perms.len());
    // the full mask comes first and the empty set last
    assert_eq!(perms[0], mask);
    assert_eq!(perms[perms.len() - 1], 0);
}

#[test]
fn rook_magic_agrees_with_the_reference() {
    let magic = generate_rook_magic().expect("magic search failed");
    for pos in 0..64 {
        let mask = rook_mask(pos);
        for blockers in bitmask_permutations(mask) {
            assert_eq!(
                magic.attacks(pos, blockers),
                generate_rook_attacks(pos, blockers)
            );
        }
    }
}

#[test]
fn bishop_magic_agrees_with_the_reference() {
    let magic = generate_bishop_magic().expect("magic search failed");
    for pos in 0..64 {
        let mask = bishop_mask(pos);
        for blockers in bitmask_permutations(mask) {
            assert_eq!(
                magic.attacks(pos, blockers),
                generate_bishop_attacks(pos, blockers)
            );
        }
    }
}

#[test]
fn magic_lookup_masks_the_occupancy() {
    // occupancy outside the mask must not change the answer
    let magic = generate_rook_magic().expect("magic search failed");
    let busy = 0xFF000000000000FF & !(rook_mask(27)) & !(1u64 << 27);
    assert_eq!(magic.attacks(27, busy), magic.attacks(27, 0));
}
