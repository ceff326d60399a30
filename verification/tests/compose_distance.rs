//! Tests of the color model, the compositor and the distance oracle.

use beacon_calculator::calculate_color_from_panes;
use beacon_calculator::calculate_color_from_panes_custom;
use beacon_calculator::calculate_color_from_panes_default;
use beacon_calculator::calculate_distance;
use beacon_calculator::convert_colors;
use beacon_calculator::get_standard_colors;
use beacon_calculator::PreciseRGB;
use beacon_calculator::RGB;

fn sample_palette() -> Vec<(String, [u8; 3])> {
    vec![
        ("red".to_string(), [176, 46, 38]),
        ("green".to_string(), [94, 124, 22]),
        ("blue".to_string(), [60, 68, 170]),
    ]
}

#[test]
fn rgb_roundtrip() {
    let c = RGB::new([12, 200, 255]);
    assert_eq!(c.to_array(), [12, 200, 255]);
    assert_eq!(c.red, 12);
    assert_eq!(c.green, 200);
    assert_eq!(c.blue, 255);
}

#[test]
fn precise_from_rgb_is_exact() {
    let p = PreciseRGB::from(RGB::new([176, 46, 38]));
    assert_eq!(p.num_red, 176);
    assert_eq!(p.num_green, 46);
    assert_eq!(p.num_blue, 38);
    assert_eq!(p.den, 1);
    assert_eq!(p.to_u8_array(), [176, 46, 38]);
}

#[test]
fn precise_truncation_clamps_at_255() {
    let p = PreciseRGB::new(1068, 82, 511, 4);
    // 1068/4 = 267 clamps to 255; 82/4 truncates to 20; 511/4 truncates to 127
    assert_eq!(p.to_u8_array(), [255, 20, 127]);
}

#[test]
fn compositor_identity_single_pane() {
    let pal = convert_colors(&sample_palette());
    let c = calculate_color_from_panes(&vec!["red".to_string()], &pal);
    assert_eq!(c.num_red, 176);
    assert_eq!(c.num_green, 46);
    assert_eq!(c.num_blue, 38);
    assert_eq!(c.den, 1);
    assert_eq!(c.to_u8_array(), [176, 46, 38]);
}

#[test]
fn compositor_weighting_two_panes() {
    // composite == (color(a) + 2 * color(b)) / 2 per channel:
    // (176 + 2*94)/2 = 182, (46 + 2*124)/2 = 147, (38 + 2*22)/2 = 41
    let pal = convert_colors(&sample_palette());
    let c = calculate_color_from_panes(&vec!["red".to_string(), "green".to_string()], &pal);
    assert_eq!(c.num_red, 176 + 2 * 94);
    assert_eq!(c.num_green, 46 + 2 * 124);
    assert_eq!(c.num_blue, 38 + 2 * 22);
    assert_eq!(c.den, 2);
    assert_eq!(c.to_u8_array(), [182, 147, 41]);
}

#[test]
fn compositor_alias_and_default_agree() {
    let pal = convert_colors(&get_standard_colors());
    let panes = vec!["red".to_string(), "green".to_string(), "blue".to_string()];
    let a = calculate_color_from_panes(&panes, &pal);
    let b = calculate_color_from_panes_custom(&panes, &pal);
    let d = calculate_color_from_panes_default(&panes);
    assert_eq!(a, b);
    assert_eq!(a, d);
    assert_eq!(a.den, 4);
}

#[test]
fn distance_identity() {
    for raw in [[0u8, 0, 0], [255, 255, 255], [254, 44, 84], [176, 46, 38], [1, 2, 3]] {
        let c = RGB::new(raw);
        let key = calculate_distance(PreciseRGB::from(c), c);
        assert_eq!(key, 0);
        assert_eq!(f32::from_bits(key), 0.0);
    }
}

#[test]
fn distance_nonnegative_and_finite() {
    let samples = [[0u8, 0, 0], [255, 255, 255], [254, 44, 84], [176, 46, 38], [12, 200, 100], [
        60, 68, 170,
    ]];
    for a in samples {
        for b in samples {
            let key = calculate_distance(PreciseRGB::from(RGB::new(a)), RGB::new(b));
            let val = f32::from_bits(key);
            assert!(val >= 0.0);
            assert!(val.is_finite());
        }
    }
}

#[test]
fn distance_distinguishes_colors() {
    // would fail if the oracle ignored its inputs
    let red = RGB::new([176, 46, 38]);
    let blue = RGB::new([60, 68, 170]);
    let key = calculate_distance(PreciseRGB::from(red), blue);
    assert!(key > 0);
    let white = RGB::new([255, 255, 255]);
    let black = RGB::new([0, 0, 0]);
    let far = calculate_distance(PreciseRGB::from(white), black);
    let near = calculate_distance(PreciseRGB::from(RGB::new([250, 250, 250])), white);
    assert!(near < far);
}

#[test]
fn distance_truncates_precise_color_first() {
    // 364/2 = 182 exactly: same truncation, same distance
    let target = RGB::new([10, 20, 30]);
    let halves = PreciseRGB::new(364, 294, 82, 2);
    let whole = PreciseRGB::from(RGB::new([182, 147, 41]));
    assert_eq!(calculate_distance(halves, target), calculate_distance(whole, target));
}

#[test]
fn standard_colors_table() {
    let raw = get_standard_colors();
    assert_eq!(raw.len(), 16);
    assert_eq!(raw[0].0, "white");
    assert_eq!(raw[0].1, [249, 255, 254]);
    assert_eq!(raw[14].0, "red");
    assert_eq!(raw[14].1, [176, 46, 38]);
    assert_eq!(raw[15].0, "black");
    assert_eq!(raw[15].1, [29, 29, 33]);
    let names: Vec<&str> = raw.iter().map(|e| e.0.as_str()).collect();
    for (i, a) in names.iter().enumerate() {
        for b in names.iter().skip(i + 1) {
            assert_ne!(a, b);
        }
    }
}

#[test]
fn convert_colors_keeps_order() {
    let pal = convert_colors(&sample_palette());
    assert_eq!(pal.entries.len(), 3);
    assert_eq!(pal.entries[1].0, "green");
    assert_eq!(pal.entries[1].1, RGB::new([94, 124, 22]));
}

#[test]
fn palette_lookup_first_match() {
    let pal = convert_colors(&sample_palette());
    assert_eq!(pal.lookup(&"blue".to_string()), Some(RGB::new([60, 68, 170])));
    assert_eq!(pal.lookup(&"chartreuse".to_string()), None);
    assert_eq!(pal.len(), 3);
}
