use oxideav_cook::category::{BandCategory, CategoryIndex};
use oxideav_cook::category_assignment::{BASE_CONSTANT_K, BISECTION_STEPS, CATEGORY_CLIP_HI, CATEGORY_CLIP_LO, OFFSET_START, REFINEMENT_CAP_SLACK, REFINEMENT_TARGET_FACTOR, assign_band_categories, assign_base_categories, base_category, assign_base_offset, assign_categories, category_cost, refine_categories, total_cost};
#[test]
fn params_match_the_table() {
    assert_eq!(BASE_CONSTANT_K, 32);
    assert_eq!(OFFSET_START, -32);
    assert_eq!(BISECTION_STEPS, [32, 16, 8, 4, 2, 1]);
    assert_eq!(CATEGORY_CLIP_LO, 0);
    assert_eq!(CATEGORY_CLIP_HI, 7);
    assert_eq!(category_cost(7), 0);
    assert_eq!(category_cost(0), 52);
    assert_eq!(category_cost(6), 16);
}

#[test]
fn base_formula_reproduces_the_pinned_vector() {
    let v = [0, 4, 8, 12, 2, 6, 10, 14];
    let off = assign_base_offset(&v, 250);
    let cats = base_categories_at(off, &v);
    assert_eq!(cats, [7, 5, 3, 1, 6, 4, 2, 0]);
    assert_eq!(
        base_categories_at(-17, &v),
        [7, 5, 3, 1, 6, 4, 2, 0],
        "clip((15 - v)>>1, 0, 7)"
    );
}

#[test]
fn flat_budget_sweep_matches_validator() {
    let v = [0i32; 8];
    for (b, want) in [
        (0i32, 7u8),
        (20, 7),
        (50, 6),
        (176, 5),
        (232, 4),
        (300, 3),
        (400, 1),
        (500, 0),
    ] {
        let cats = assign_base_categories(&v, b);
        assert!(
            cats.iter().all(|&c| c == want),
            "budget {b}: got {cats:?}, want uniform {want}"
        );
    }
}

#[test]
fn flat_category_transitions_land_at_c_low_plus_k_plus_one() {
    let v = [0i32; 8];
    let transitions = [
        (33, 6u8),
        (161, 5),
        (209, 4),
        (265, 3),
        (329, 2),
        (377, 1),
        (409, 0),
    ];
    for (b, want) in transitions {
        let at = assign_base_categories(&v, b);
        let before = assign_base_categories(&v, b - 1);
        assert!(at.iter().all(|&c| c == want), "budget {b}: {at:?}");
        assert!(
            before.iter().all(|&c| c == want + 1),
            "budget {}: {before:?}",
            b - 1
        );
    }
}

#[test]
fn nonflat_base_vectors_match_validator() {
    let a = [0, 4, 8, 12, 2, 6, 10, 14];
    for (b, want) in [
        (80, vec![7, 7, 7, 5, 7, 7, 6, 4]),
        (100, vec![7, 7, 6, 4, 7, 7, 5, 3]),
        (150, vec![7, 7, 5, 3, 7, 6, 4, 2]),
        (180, vec![7, 6, 4, 2, 7, 5, 3, 1]),
        (227, vec![7, 5, 3, 1, 6, 4, 2, 0]),
        (279, vec![6, 4, 2, 0, 5, 3, 1, 0]),
        (340, vec![5, 3, 1, 0, 4, 2, 0, 0]),
        (380, vec![4, 2, 0, 0, 3, 1, 0, 0]),
    ] {
        assert_eq!(assign_base_categories(&a, b), want, "vec A budget {b}");
    }

    let c = [10, 0, 10, 0, 10, 0, 10, 0];
    for (b, want) in [
        (100, vec![5, 7, 5, 7, 5, 7, 5, 7]),
        (150, vec![3, 7, 3, 7, 3, 7, 3, 7]),
        (200, vec![2, 7, 2, 7, 2, 7, 2, 7]),
        (250, vec![1, 6, 1, 6, 1, 6, 1, 6]),
        (300, vec![0, 5, 0, 5, 0, 5, 0, 5]),
    ] {
        assert_eq!(assign_base_categories(&c, b), want, "vec C budget {b}");
    }

    let d = [0, 1, 2, 3, 4, 5];
    for (b, want) in [
        (60, vec![7, 7, 7, 7, 6, 6]),
        (100, vec![7, 7, 6, 6, 5, 5]),
        (140, vec![6, 6, 5, 5, 4, 4]),
        (180, vec![6, 5, 5, 4, 4, 3]),
        (220, vec![5, 4, 4, 3, 3, 2]),
    ] {
        assert_eq!(assign_base_categories(&d, b), want, "vec D budget {b}");
    }
}

#[test]
fn flat_nonzero_and_nb4_match_validator() {
    let b = [3i32; 6];
    assert_eq!(assign_base_categories(&b, 0), vec![7; 6]);
    assert_eq!(assign_base_categories(&b, 50), vec![6; 6]);
    assert_eq!(assign_base_categories(&b, 120), vec![6; 6]);
    assert_eq!(assign_base_categories(&b, 200), vec![4; 6]);
    assert_eq!(assign_base_categories(&b, 260), vec![2; 6]);
    let f = [0i32; 4];
    for (bud, want) in [
        (32, 7u8),
        (33, 6),
        (96, 6),
        (97, 5),
        (120, 5),
        (121, 4),
        (148, 4),
        (149, 3),
        (204, 2),
        (205, 1),
        (220, 1),
        (221, 0),
    ] {
        assert!(
            assign_base_categories(&f, bud).iter().all(|&c| c == want),
            "Nb=4 budget {bud} want {want}"
        );
    }
}

#[test]
fn uniform_refinement_matches_validator() {
    let v = [0i32; 8];
    let cases = [
        (1u32, vec![5, 5, 5, 5, 5, 5, 5, 5], vec![]),
        (2, vec![4, 5, 5, 5, 5, 5, 5, 5], vec![0u32]),
        (3, vec![4, 4, 5, 5, 5, 5, 5, 5], vec![1, 0]),
        (4, vec![4, 4, 4, 5, 5, 5, 5, 5], vec![2, 1, 0]),
        (5, vec![4, 4, 4, 4, 5, 5, 5, 5], vec![3, 2, 1, 0]),
        (6, vec![4, 4, 4, 4, 4, 5, 5, 5], vec![4, 3, 2, 1, 0]),
    ];
    for (m, cats, idx) in cases {
        let a = assign_categories(&v, 200, m);
        assert_eq!(a.categories, cats, "M={m}");
        assert_eq!(a.adjusted, idx, "M={m} idx");
    }
    let a = assign_categories(&v, 260, 4);
    assert_eq!(a.categories, vec![3, 3, 3, 4, 4, 4, 4, 4]);
    assert_eq!(a.adjusted, vec![2, 1, 0]);
}

#[test]
fn over_budget_uniform_base_is_left_unrefined() {
    let v = [0i32; 8];
    let a = assign_categories(&v, 60, 4);
    assert_eq!(a.categories, vec![6; 8]);
    assert!(a.adjusted.is_empty());
}

#[test]
fn nonflat_refinement_walks_the_parity_sweep_ascending() {
    let v = [0, 4, 8, 12, 2, 6, 10, 14];
    let base = assign_base_categories(&v, 250);
    assert_eq!(base, vec![7, 5, 3, 1, 6, 4, 2, 0]);
    let cases: [(u32, Vec<u8>, Vec<u32>); 5] = [
        (1, vec![7, 5, 3, 1, 6, 4, 2, 0], vec![]),
        (2, vec![6, 5, 3, 1, 6, 4, 2, 0], vec![0]),
        (3, vec![6, 4, 3, 1, 6, 4, 2, 0], vec![1, 0]),
        (5, vec![6, 4, 2, 0, 6, 4, 2, 0], vec![3, 2, 1, 0]),
        (8, vec![6, 4, 2, 0, 5, 3, 1, 0], vec![6, 5, 4, 3, 2, 1, 0]),
    ];
    for (m, cats, idx) in cases {
        let a = assign_categories(&v, 250, m);
        assert_eq!(a.categories, cats, "M={m}");
        assert_eq!(a.adjusted, idx, "M={m} idx");
    }
    let a = assign_categories(&v, 250, 16);
    assert_eq!(a.categories, vec![4, 2, 1, 0, 4, 2, 0, 0]);
    assert_eq!(a.adjusted.len(), 15);
}


#[test]
fn band_categories_view_maps_empty_sentinel() {
    let v = [0, 4, 8, 12, 2, 6, 10, 14];
    let bands = assign_band_categories(&v, 250, 1).unwrap();
    assert_eq!(bands[0], BandCategory::Empty);
    assert_eq!(
        bands[1],
        BandCategory::Coded(CategoryIndex::new(5).unwrap())
    );
    assert_eq!(
        bands[7],
        BandCategory::Coded(CategoryIndex::new(0).unwrap())
    );
}

#[test]
fn empty_input_is_empty_output() {
    assert!(assign_base_categories(&[], 100).is_empty());
    let a = assign_categories(&[], 100, 4);
    assert!(a.categories.is_empty());
    assert!(a.adjusted.is_empty());
}

#[test]
fn tiny_budget_is_all_empty_band() {
    let v = [0i32; 5];
    assert_eq!(assign_base_categories(&v, 0), vec![7; 5]);
    assert_eq!(assign_base_categories(&v, 32), vec![7; 5]);
    assert_eq!(assign_base_categories(&v, 33), vec![6; 5]);
}

fn base_categories_at(offset: i32, v: &[i32]) -> Vec<u8> {
    v.iter().map(|&vb| base_category(offset, vb)).collect()
}

fn base_cost(offset: i32, v: &[i32]) -> u32 {
    total_cost(&base_categories_at(offset, v))
}

#[test]
fn base_cost_never_rises_as_the_offset_grows() {
    let v = [3i32, -7, 12, 0, 25, 9, -2, 18];
    let mut prev = base_cost(-80, &v);
    for o in -79..=60 {
        let c = base_cost(o, &v);
        assert!(c <= prev, "offset {o}: {c} > {prev}");
        prev = c;
    }
    assert_eq!(base_cost(60, &v), 0);
}

#[test]
fn base_offset_is_the_first_affordable_step_from_the_coarsest() {
    let v = [3i32, -7, 12, 0, 25, 9, -2, 18];
    for budget in [0i32, 20, 33, 60, 100, 200, 300, 500, 1000] {
        let off = assign_base_offset(&v, budget);
        let start = 25 - 18;
        assert!(off <= start);
        // Every offset above the landing one was still affordable.
        for p in (off + 1)..=start {
            assert!((base_cost(p, &v) as i32) + BASE_CONSTANT_K < budget);
        }
        // The landing one reaches the budget, or no finer offset changes the cost.
        let reached = (base_cost(off, &v) as i32) + BASE_CONSTANT_K >= budget;
        let finest = ((-7 - 48)..off).all(|p| base_cost(p, &v) == base_cost(off, &v));
        assert!(reached || finest, "budget {budget}");
    }
}

#[test]
fn small_budget_leaves_every_band_empty() {
    let v = [3i32, -7, 12, 0, 25];
    for budget in [-5i32, 0, 10, 32] {
        assert_eq!(assign_base_categories(&v, budget), vec![7; 5]);
    }
}

#[test]
fn refinement_respects_its_step_and_cost_caps() {
    let v = [3i32, -7, 12, 0, 25, 9, -2, 18, 4, 4, 11, -1];
    for budget in [40i32, 90, 150, 220, 400] {
        for bound in [0u32, 1, 2, 5, 40] {
            let a = assign_categories(&v, budget, bound);
            assert_eq!(a.categories.len(), v.len());
            assert!(a.categories.iter().all(|&c| c <= 7));
            assert!(a.adjusted.len() as u32 <= bound.saturating_sub(1));
            if a.adjusted.is_empty() {
                assert_eq!(a.categories, assign_base_categories(&v, budget));
            } else {
                assert!((total_cost(&a.categories) as i32) <= 2 * budget - 6);
            }
        }
    }
}

#[test]
fn refinement_only_lowers_listed_bands_within_the_cap() {
    let cases: [(&[i32], i32, u32); 4] = [
        (&[0, 4, 8, 12, 2, 6, 10, 14], 250, 16),
        (&[10, 10, 10, 10, 10, 10], 120, 8),
        (&[-5, 3, 17, 9, 0, 22, 4], 180, 32),
        (&[0, 0, 0, 0], 10, 8),
    ];
    for (v, budget, m) in cases {
        let base_offset = assign_base_offset(v, budget);
        let base: Vec<u8> = v.iter().map(|&x| base_category(base_offset, x)).collect();
        let cap = 2 * budget - 6;
        let r = refine_categories(v, budget, base_offset, m);
        assert_eq!(r.categories.len(), v.len());
        for b in 0..v.len() {
            assert!(r.categories[b] <= base[b], "{v:?} band {b}");
            if r.categories[b] != base[b] {
                assert!(r.adjusted.contains(&(b as u32)), "{v:?} band {b}");
            }
        }
        let base_total = total_cost(&base) as i32;
        let total = total_cost(&r.categories) as i32;
        assert!(total <= base_total.max(cap), "{v:?}");
        if base_total > cap {
            assert_eq!(r.categories, base);
            assert!(r.adjusted.is_empty());
        }
        assert!(r.adjusted.len() <= m.saturating_sub(1) as usize);
    }
}

#[test]
fn base_offset_is_the_largest_stopping_offset() {
    fn cost(v: &[i32], off: i32) -> i32 {
        let cats: Vec<u8> = v.iter().map(|&x| base_category(off, x)).collect();
        total_cost(&cats) as i32
    }
    let cases: [(&[i32], i32); 4] = [
        (&[0, 4, 8, 12, 2, 6, 10, 14], 250),
        (&[10, 10, 10, 10, 10, 10], 120),
        (&[-5, 3, 17, 9, 0, 22, 4], 180),
        (&[0, 0, 0, 0], 1000),
    ];
    assert_eq!(assign_base_offset(cases[0].0, cases[0].1), -17);
    for (v, budget) in cases {
        let top = v.iter().copied().max().unwrap() - 18;
        let bottom = v.iter().copied().min().unwrap() - 60;
        let may_stop = |x: i32| {
            x <= top
                && ((x + 1)..=top).all(|p| cost(v, p) + 32 < budget)
                && (cost(v, x) + 32 >= budget || (bottom..x).all(|p| cost(v, p) == cost(v, x)))
        };
        let o = assign_base_offset(v, budget);
        assert!(may_stop(o), "{v:?}");
        for x in (o + 1)..=top {
            assert!(!may_stop(x), "{v:?} at {x}");
        }
    }
}
