use media_center::theme::{
    darken, gold, hex, lerp_u8, lighten, next_palette_index, palette_by_index, palettes, purple, teal, Rgb,
    PALETTE_COUNT,
};

#[test]
fn palettes_are_non_empty() {
    assert!(palettes().len() >= 2);
}

#[test]
fn palette_names_are_unique() {
    let all = palettes();
    let mut names = all.iter().map(|palette| palette.name.clone()).collect::<Vec<_>>();
    names.sort_unstable();
    names.dedup();
    assert_eq!(names.len(), all.len());
}

#[test]
fn generated_palette_uses_base_at_s50() {
    let gold = gold().shades.s50;
    assert_eq!(gold.red, 0xFD);
    assert_eq!(gold.green, 0xCB);
    assert_eq!(gold.blue, 0x6E);
}

#[test]
fn generated_palette_darkens_and_lightens() {
    let purple = purple().shades;
    assert!(purple.s10.red < purple.s50.red);
    assert!(purple.s90.red > purple.s50.red);
}

#[test]
fn channel_interpolation_values() {
    assert_eq!(lerp_u8(200, 0, 0), 200);
    assert_eq!(lerp_u8(200, 0, 255), 0);
    assert_eq!(lerp_u8(0, 255, 128), 128);
    assert_eq!(lerp_u8(0xA2, 0, 199), 35);
    assert_eq!(darken(100, 50, 0, 255), Rgb { red: 0, green: 0, blue: 0 });
    assert_eq!(lighten(100, 50, 0, 255), Rgb { red: 255, green: 255, blue: 255 });
    assert_eq!(hex(0x2DD4BF), Rgb { red: 0x2D, green: 0xD4, blue: 0xBF });
    assert_eq!(teal().shades.s50, hex(0x2DD4BF));
}

#[test]
fn palette_index_wraps_around() {
    assert_eq!(next_palette_index(0), 1);
    assert_eq!(next_palette_index(PALETTE_COUNT - 1), 0);
    let mut i = 3;
    for _ in 0..PALETTE_COUNT {
        i = next_palette_index(i);
    }
    assert_eq!(i, 3);
    assert_eq!(palette_by_index(PALETTE_COUNT + 1).name, "gold");
}
