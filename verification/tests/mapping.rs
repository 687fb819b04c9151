use std::collections::HashMap;
use uggo::rune::RuneExtended;
use uggo::util::{
    build_page, generate_perk_array, group_runes, RuneStyleGroup, AUTO_DETECT_INTERVAL_MS,
    UNSET_STYLE,
};

const PRECISION: i64 = 8000;
const DOMINATION: i64 = 8100;
const SORCERY: i64 = 8200;

fn rune(slot: i64, parent_id: i64) -> RuneExtended {
    RuneExtended { slot, parent_id }
}

fn metadata() -> HashMap<i64, RuneExtended> {
    let mut m = HashMap::new();
    m.insert(8005, rune(0, PRECISION));
    m.insert(8008, rune(0, PRECISION));
    m.insert(9111, rune(1, PRECISION));
    m.insert(9104, rune(2, PRECISION));
    m.insert(8014, rune(3, PRECISION));
    m.insert(8112, rune(0, DOMINATION));
    m.insert(8126, rune(1, DOMINATION));
    m.insert(8138, rune(2, DOMINATION));
    m.insert(8135, rune(3, DOMINATION));
    m.insert(8214, rune(0, SORCERY));
    m.insert(8226, rune(1, SORCERY));
    m
}

fn group(style_id: i64, runes: &[(i64, i64)]) -> RuneStyleGroup {
    RuneStyleGroup {
        style_id,
        runes: runes.iter().map(|&(id, slot)| (id, rune(slot, style_id))).collect(),
    }
}

#[test]
fn interval_is_two_seconds() {
    assert_eq!(AUTO_DETECT_INTERVAL_MS, 2000);
    assert_eq!(UNSET_STYLE, -1);
}

#[test]
fn group_runes_groups_by_style_in_order_of_appearance() {
    let groups = group_runes(&[8005, 9111, 8126, 9104, 8138, 8014], &metadata());
    assert_eq!(
        groups,
        vec![
            group(PRECISION, &[(8005, 0), (9111, 1), (9104, 2), (8014, 3)]),
            group(DOMINATION, &[(8126, 1), (8138, 2)]),
        ]
    );
}

#[test]
fn group_runes_puts_the_larger_group_first() {
    let groups = group_runes(&[8126, 8005, 9111, 8138, 9104, 8014], &metadata());
    assert_eq!(
        groups,
        vec![
            group(PRECISION, &[(8005, 0), (9111, 1), (9104, 2), (8014, 3)]),
            group(DOMINATION, &[(8126, 1), (8138, 2)]),
        ]
    );
    let mut meta = HashMap::new();
    for (id, slot) in [(1, 0), (2, 1), (3, 2), (4, 3)] {
        meta.insert(id, rune(slot, 100));
    }
    for (id, slot) in [(5, 1), (6, 2)] {
        meta.insert(id, rune(slot, 200));
    }
    assert_eq!(
        group_runes(&[5, 6, 1, 2, 3, 4], &meta),
        vec![group(100, &[(1, 0), (2, 1), (3, 2), (4, 3)]), group(200, &[(5, 1), (6, 2)])]
    );
    assert_eq!(
        group_runes(&[5, 999, 1, 2], &meta),
        vec![group(100, &[(1, 0), (2, 1)]), group(200, &[(5, 1)])]
    );
    assert_eq!(
        group_runes(&[5, 1, 2], &meta),
        vec![group(100, &[(1, 0), (2, 1)]), group(200, &[(5, 1)])]
    );
}

#[test]
fn group_runes_keeps_groups_of_one_size_in_order_of_appearance() {
    assert_eq!(
        group_runes(&[8226, 8126, 8005, 8214, 8138, 9111], &metadata()),
        vec![
            group(SORCERY, &[(8226, 1), (8214, 0)]),
            group(DOMINATION, &[(8126, 1), (8138, 2)]),
            group(PRECISION, &[(8005, 0), (9111, 1)]),
        ]
    );
    assert_eq!(
        group_runes(&[8226, 8126, 8005, 8138, 9111, 8135], &metadata()),
        vec![
            group(DOMINATION, &[(8126, 1), (8138, 2), (8135, 3)]),
            group(PRECISION, &[(8005, 0), (9111, 1)]),
            group(SORCERY, &[(8226, 1)]),
        ]
    );
    let groups = group_runes(&[8226, 8005, 8126, 9111, 8138, 8135, 8214, 8112], &metadata());
    for pair in groups.windows(2) {
        assert!(pair[0].runes.len() >= pair[1].runes.len());
    }
    assert_eq!(groups.iter().map(|g| g.style_id).collect::<Vec<_>>(), vec![
        DOMINATION, SORCERY, PRECISION
    ]);
}

#[test]
fn group_runes_drops_unknown_ids() {
    let groups = group_runes(&[1, 8005, 2, 8126, 3], &metadata());
    assert_eq!(groups, vec![group(PRECISION, &[(8005, 0)]), group(DOMINATION, &[(8126, 1)])]);
    assert_eq!(group_runes(&[1, 2, 3], &metadata()), vec![]);
    assert_eq!(group_runes(&[], &metadata()), vec![]);
    assert_eq!(group_runes(&[8005, 8126], &HashMap::new()), vec![]);
}

#[test]
fn group_runes_keeps_repeated_ids() {
    let groups = group_runes(&[8005, 8005, 8226, 8005], &metadata());
    assert_eq!(
        groups,
        vec![group(PRECISION, &[(8005, 0), (8005, 0), (8005, 0)]), group(SORCERY, &[(8226, 1)])]
    );
}

#[test]
fn generate_perk_array_puts_the_keystone_style_first() {
    let primary = group(PRECISION, &[(8005, 0), (9111, 1), (9104, 2), (8014, 3)]);
    let secondary = group(DOMINATION, &[(8126, 1), (8138, 2)]);
    let shards = [5008, 5002, 5001];
    let expected =
        (PRECISION, DOMINATION, vec![8005, 9111, 9104, 8014, 8126, 8138, 5008, 5002, 5001]);
    assert_eq!(generate_perk_array(&[primary.clone(), secondary.clone()], &shards), expected);
    assert_eq!(generate_perk_array(&[secondary, primary], &shards), expected);
}

#[test]
fn generate_perk_array_finds_the_keystone_anywhere_in_its_group() {
    let primary = group(SORCERY, &[(1, 3), (2, 2), (3, 0), (4, 1)]);
    let secondary = group(PRECISION, &[(5, 3), (6, 1)]);
    assert_eq!(
        generate_perk_array(&[secondary, primary], &[7, 8, 9]),
        (SORCERY, PRECISION, vec![1, 2, 3, 4, 5, 6, 7, 8, 9])
    );
}

#[test]
fn generate_perk_array_goes_by_the_keystone_not_by_size_alone() {
    // four runes without a keystone and two with one make no page
    let four = group(PRECISION, &[(1, 1), (2, 2), (3, 3), (4, 1)]);
    let two = group(DOMINATION, &[(5, 0), (6, 1)]);
    assert_eq!(
        generate_perk_array(&[four, two], &[7, 8, 9]),
        (UNSET_STYLE, UNSET_STYLE, vec![1, 2, 3, 4, 5, 6, 7, 8, 9])
    );
}

#[test]
fn generate_perk_array_degrades_on_other_counts() {
    let shards = [7, 8, 9];
    let cases: Vec<(Vec<RuneStyleGroup>, Vec<i64>)> = vec![
        (vec![], vec![7, 8, 9]),
        (vec![group(PRECISION, &[(1, 0), (2, 1), (3, 2), (4, 3)])], vec![1, 2, 3, 4, 7, 8, 9]),
        (
            vec![
                group(PRECISION, &[(1, 0), (2, 1), (3, 2)]),
                group(DOMINATION, &[(4, 1), (5, 2), (6, 3)]),
            ],
            vec![1, 2, 3, 4, 5, 6, 7, 8, 9],
        ),
        (
            // five runes, the keystone not among the first four
            vec![
                group(PRECISION, &[(1, 1), (2, 1), (3, 2), (4, 3), (10, 0)]),
                group(DOMINATION, &[(5, 1), (6, 2)]),
            ],
            vec![1, 2, 3, 4, 10, 5, 6, 7, 8, 9],
        ),
        (
            // a keystone beyond the first two of the other group
            vec![
                group(PRECISION, &[(1, 0), (2, 1), (3, 2), (4, 3)]),
                group(DOMINATION, &[(5, 1), (6, 2), (10, 0)]),
            ],
            vec![1, 2, 3, 4, 5, 6, 10, 7, 8, 9],
        ),
        (
            vec![
                group(PRECISION, &[(1, 0), (2, 1), (3, 2), (4, 3)]),
                group(DOMINATION, &[(5, 1)]),
            ],
            vec![1, 2, 3, 4, 5, 7, 8, 9],
        ),
        (
            vec![
                group(PRECISION, &[(1, 0), (2, 1), (3, 2), (4, 3)]),
                group(DOMINATION, &[(5, 1), (6, 2)]),
                group(SORCERY, &[(10, 1)]),
            ],
            vec![1, 2, 3, 4, 5, 6, 10, 7, 8, 9],
        ),
        (
            // a keystone in both groups
            vec![
                group(PRECISION, &[(1, 0), (2, 1), (3, 2), (4, 3)]),
                group(DOMINATION, &[(5, 0), (6, 2)]),
            ],
            vec![1, 2, 3, 4, 5, 6, 7, 8, 9],
        ),
        (
            // no keystone at all
            vec![
                group(PRECISION, &[(1, 1), (2, 1), (3, 2), (4, 3)]),
                group(DOMINATION, &[(5, 1), (6, 2)]),
            ],
            vec![1, 2, 3, 4, 5, 6, 7, 8, 9],
        ),
        (
            // twice the same style
            vec![
                group(PRECISION, &[(1, 0), (2, 1), (3, 2), (4, 3)]),
                group(PRECISION, &[(5, 1), (6, 2)]),
            ],
            vec![1, 2, 3, 4, 5, 6, 7, 8, 9],
        ),
    ];
    for (groups, perks) in cases {
        assert_eq!(
            generate_perk_array(&groups, &shards),
            (UNSET_STYLE, UNSET_STYLE, perks),
            "{:?}",
            groups
        );
    }
}

#[test]
fn generate_perk_array_cuts_larger_groups() {
    let shards = [7, 8, 9];
    let five = group(PRECISION, &[(1, 0), (2, 1), (3, 2), (4, 3), (10, 3)]);
    let two = group(DOMINATION, &[(5, 1), (6, 2)]);
    let four = group(PRECISION, &[(1, 1), (2, 0), (3, 2), (4, 3)]);
    let three = group(DOMINATION, &[(5, 1), (6, 2), (11, 3)]);
    let seven = group(SORCERY, &[(21, 3), (22, 2), (23, 1), (24, 0), (25, 0), (26, 1), (27, 2)]);
    let expected = (PRECISION, DOMINATION, vec![1, 2, 3, 4, 5, 6, 7, 8, 9]);
    assert_eq!(generate_perk_array(&[five.clone(), two.clone()], &shards), expected);
    assert_eq!(generate_perk_array(&[two.clone(), five.clone()], &shards), expected);
    assert_eq!(generate_perk_array(&[four.clone(), three.clone()], &shards), expected);
    assert_eq!(generate_perk_array(&[three.clone(), four], &shards), expected);
    assert_eq!(generate_perk_array(&[five, three.clone()], &shards), expected);
    assert_eq!(
        generate_perk_array(&[three, seven], &shards),
        (SORCERY, DOMINATION, vec![21, 22, 23, 24, 5, 6, 7, 8, 9])
    );
}

#[test]
fn generate_perk_array_takes_the_first_four_of_five_and_the_two() {
    let mut meta = HashMap::new();
    for (id, slot) in [(1, 0), (2, 1), (3, 2), (4, 3), (5, 3)] {
        meta.insert(id, rune(slot, 100));
    }
    for (id, slot) in [(6, 1), (7, 2)] {
        meta.insert(id, rune(slot, 200));
    }
    let groups = group_runes(&[1, 2, 3, 4, 5, 6, 7], &meta);
    assert_eq!(
        generate_perk_array(&groups, &[5008, 5008, 5002]),
        (100, 200, vec![1, 2, 3, 4, 6, 7, 5008, 5008, 5002])
    );
    assert_eq!(
        build_page(&[1, 2, 3, 4, 5, 6, 7], &[5008, 5008, 5002], &meta),
        (100, 200, vec![1, 2, 3, 4, 6, 7, 5008, 5008, 5002])
    );
}

#[test]
fn generate_perk_array_appends_whatever_shards_it_gets() {
    let primary = group(PRECISION, &[(1, 0), (2, 1), (3, 2), (4, 3)]);
    let secondary = group(DOMINATION, &[(5, 1), (6, 2)]);
    let groups = [primary, secondary];
    assert_eq!(
        generate_perk_array(&groups, &[]),
        (PRECISION, DOMINATION, vec![1, 2, 3, 4, 5, 6])
    );
    assert_eq!(
        generate_perk_array(&groups, &[9, 8, 7, 6]),
        (PRECISION, DOMINATION, vec![1, 2, 3, 4, 5, 6, 9, 8, 7, 6])
    );
}

#[test]
fn build_page_makes_four_two_three() {
    let page = build_page(
        &[8005, 9111, 9104, 8014, 8126, 8138],
        &[5008, 5002, 5001],
        &metadata(),
    );
    assert_eq!(
        page,
        (PRECISION, DOMINATION, vec![8005, 9111, 9104, 8014, 8126, 8138, 5008, 5002, 5001])
    );
    assert_eq!(page.2.len(), 9);
}

#[test]
fn build_page_keeps_input_order_within_each_style() {
    // the secondary style comes first and the styles interleave
    let page = build_page(
        &[8138, 8014, 8126, 9104, 8005, 9111],
        &[5001, 5002, 5008],
        &metadata(),
    );
    assert_eq!(
        page,
        (PRECISION, DOMINATION, vec![8014, 9104, 8005, 9111, 8138, 8126, 5001, 5002, 5008])
    );
}

#[test]
fn build_page_is_stable_across_calls() {
    let ids = [8138, 8014, 8126, 9104, 8005, 9111];
    let shards = [5001, 5002, 5008];
    let first = build_page(&ids, &shards, &metadata());
    for _ in 0..20 {
        // a fresh table each time: its iteration order must not matter
        assert_eq!(build_page(&ids, &shards, &metadata()), first);
    }
    let mut larger = metadata();
    larger.insert(1, rune(0, 1));
    larger.insert(2, rune(1, 2));
    assert_eq!(build_page(&ids, &shards, &larger), first);
}

#[test]
fn build_page_ignores_unknown_ids() {
    let page = build_page(
        &[1, 8005, 9111, 2, 9104, 8014, 8126, 3, 8138],
        &[5008, 5002, 5001],
        &metadata(),
    );
    assert_eq!(
        page,
        (PRECISION, DOMINATION, vec![8005, 9111, 9104, 8014, 8126, 8138, 5008, 5002, 5001])
    );
}

#[test]
fn build_page_degrades_on_a_single_style() {
    let page = build_page(&[8005, 9111, 9104, 8014], &[5008, 5002, 5001], &metadata());
    assert_eq!(page, (UNSET_STYLE, UNSET_STYLE, vec![8005, 9111, 9104, 8014, 5008, 5002, 5001]));
}

#[test]
fn build_page_degrades_without_metadata() {
    let page = build_page(
        &[8005, 9111, 9104, 8014, 8126, 8138],
        &[5008, 5002, 5001],
        &HashMap::new(),
    );
    assert_eq!(page, (UNSET_STYLE, UNSET_STYLE, vec![5008, 5002, 5001]));
    assert_eq!(build_page(&[], &[], &metadata()), (UNSET_STYLE, UNSET_STYLE, vec![]));
}

#[test]
fn build_page_takes_the_first_four_and_the_first_two() {
    // five runes of the keystone's style and three of the other
    let page = build_page(
        &[8005, 8126, 8008, 9111, 8138, 9104, 8014, 8135],
        &[5008, 5002, 5001],
        &metadata(),
    );
    assert_eq!(
        page,
        (PRECISION, DOMINATION, vec![8005, 8008, 9111, 9104, 8126, 8138, 5008, 5002, 5001])
    );
    assert_eq!(page.2.len(), 9);
}

#[test]
fn build_page_degrades_when_the_keystone_comes_too_late() {
    // the keystone is the fifth rune of its style
    let page =
        build_page(&[9111, 9104, 8014, 9111, 8005, 8126, 8138], &[5008, 5002, 5001], &metadata());
    assert_eq!(
        page,
        (
            UNSET_STYLE,
            UNSET_STYLE,
            vec![9111, 9104, 8014, 9111, 8005, 8126, 8138, 5008, 5002, 5001]
        )
    );
}

#[test]
fn build_page_lists_the_larger_group_first_when_it_degrades() {
    let page = build_page(&[8126, 8005, 9111, 9104], &[5008, 5002, 5001], &metadata());
    assert_eq!(
        page,
        (UNSET_STYLE, UNSET_STYLE, vec![8005, 9111, 9104, 8126, 5008, 5002, 5001])
    );
}

#[test]
fn build_page_degrades_on_three_styles() {
    let page = build_page(
        &[8005, 9111, 9104, 8014, 8126, 8138, 8226],
        &[5008, 5002, 5001],
        &metadata(),
    );
    assert_eq!(page.0, UNSET_STYLE);
    assert_eq!(page.1, UNSET_STYLE);
    assert_eq!(page.2, vec![8005, 9111, 9104, 8014, 8126, 8138, 8226, 5008, 5002, 5001]);
}
