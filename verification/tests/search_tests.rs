//! Tests of the pruned recursive search: degenerate rejection, determinism,
//! budget monotonicity and the exhaustive-search optimum.

use beacon_calculator::calculate_color_from_panes;
use beacon_calculator::calculate_distance;
use beacon_calculator::convert_colors;
use beacon_calculator::find_combination_custom;
use beacon_calculator::find_combination_custom_colors;
use beacon_calculator::find_combination_default;
use beacon_calculator::get_standard_colors;
use beacon_calculator::RGB;

#[test]
fn degenerate_zero_depth_rejected() {
    let raw = get_standard_colors();
    for k in [0u8, 1, 6, 16, 56] {
        assert!(find_combination_custom_colors([254, 44, 84], &raw, 0, k).is_none());
    }
}

#[test]
fn degenerate_zero_budget_rejected() {
    let raw = get_standard_colors();
    for depth in [0u8, 1, 3, 6] {
        assert!(find_combination_custom_colors([254, 44, 84], &raw, depth, 0).is_none());
    }
}

#[test]
fn degenerate_empty_palette_rejected() {
    let raw: Vec<(String, [u8; 3])> = Vec::new();
    assert!(find_combination_custom_colors([254, 44, 84], &raw, 3, 3).is_none());
}

#[test]
fn search_is_deterministic() {
    let target = [254u8, 44, 84];
    let a = find_combination_custom(target, 3, 4).unwrap();
    let b = find_combination_custom(target, 3, 4).unwrap();
    assert_eq!(a.panes, b.panes);
    assert_eq!(a.distance, b.distance);
    assert_eq!(a.color, b.color);
}

#[test]
fn result_has_requested_depth_and_known_names() {
    let raw = get_standard_colors();
    let r = find_combination_custom_colors([10, 200, 30], &raw, 4, 3).unwrap();
    assert_eq!(r.panes.len(), 4);
    for name in &r.panes {
        assert!(raw.iter().any(|e| &e.0 == name));
    }
}

#[test]
fn result_is_consistent_with_compositor_and_oracle() {
    let target = [254u8, 44, 84];
    let raw = get_standard_colors();
    let pal = convert_colors(&raw);
    let r = find_combination_custom_colors(target, &raw, 3, 5).unwrap();
    let recomposed = calculate_color_from_panes(&r.panes, &pal);
    assert_eq!(recomposed, r.color);
    assert_eq!(calculate_distance(recomposed, RGB::new(target)), r.distance);
}

#[test]
fn budget_monotonicity() {
    let target = [254u8, 44, 84];
    let mut prev: Option<u32> = None;
    for k in 1..=16u8 {
        let r = find_combination_custom(target, 3, k).unwrap();
        if let Some(p) = prev {
            assert!(r.distance <= p);
        }
        prev = Some(r.distance);
    }
}

#[test]
fn single_entry_palette_degenerates() {
    let raw = vec![("red".to_string(), [176u8, 46, 38])];
    let pal = convert_colors(&raw);
    let target = [10u8, 20, 30];
    let r = find_combination_custom_colors(target, &raw, 3, 2).unwrap();
    assert_eq!(r.panes, vec!["red".to_string(), "red".to_string(), "red".to_string()]);
    let composed = calculate_color_from_panes(&r.panes, &pal);
    assert_eq!(calculate_distance(composed, RGB::new(target)), r.distance);
}

#[test]
fn tie_break_prefers_earlier_palette_entry() {
    // two entries with identical colors score identically everywhere; the
    // deterministic tie-break must pick the entry listed first
    let raw = vec![
        ("alpha".to_string(), [100u8, 100, 100]),
        ("beta".to_string(), [100u8, 100, 100]),
    ];
    let r = find_combination_custom_colors([1, 2, 3], &raw, 2, 2).unwrap();
    assert_eq!(r.panes, vec!["alpha".to_string(), "alpha".to_string()]);
}

#[test]
fn unpruned_search_finds_global_optimum() {
    // palette = the 16-entry default table, depth 3, budget 16 (no pruning):
    // the returned distance must equal the brute-force minimum exactly
    let target = [254u8, 44, 84];
    let raw = get_standard_colors();
    let pal = convert_colors(&raw);
    let r = find_combination_custom_colors(target, &raw, 3, 16).unwrap();

    let t = RGB::new(target);
    let mut best = u32::MAX;
    for i in 0..raw.len() {
        for j in 0..raw.len() {
            for k in 0..raw.len() {
                let panes =
                    vec![raw[i].0.clone(), raw[j].0.clone(), raw[k].0.clone()];
                let key = calculate_distance(calculate_color_from_panes(&panes, &pal), t);
                if key < best {
                    best = key;
                }
            }
        }
    }
    assert_eq!(r.distance, best);
}

#[test]
fn default_search_returns_six_panes() {
    let r = find_combination_default([254, 44, 84]).unwrap();
    assert_eq!(r.panes.len(), 6);
    assert!(f32::from_bits(r.distance).is_finite());
    let pal = convert_colors(&get_standard_colors());
    let recomposed = calculate_color_from_panes(&r.panes, &pal);
    assert_eq!(recomposed, r.color);
}
