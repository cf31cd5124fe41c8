use yakui_core::geometry::Extent2;
use yakui_core::texture::{Texture, TextureFilter, TextureFormat};
use yakui_core::widget::Pad;

#[test]
fn new_texture_keeps_its_parts_and_default_filters() {
    let data = vec![1u8, 2, 3, 4];
    let tex = Texture::new(TextureFormat::Rgba8Srgb, Extent2::new(1, 1), data.clone());
    assert_eq!(tex.format(), TextureFormat::Rgba8Srgb);
    assert_eq!(tex.size(), Extent2::new(1, 1));
    assert_eq!(tex.data(), &data[..]);
    assert_eq!(tex.min_filter(), TextureFilter::Nearest);
    assert_eq!(tex.mag_filter(), TextureFilter::Linear);
}

#[test]
fn write_byte_changes_exactly_one_byte() {
    let mut tex = Texture::new(TextureFormat::R8, Extent2::new(2, 2), vec![0u8; 4]);
    tex.write_byte(2, 9);
    assert_eq!(tex.data(), &[0, 0, 9, 0][..]);
    assert_eq!(tex.format(), TextureFormat::R8);
}

#[test]
fn set_data_and_filters_replace_in_place() {
    let mut tex = Texture::new(TextureFormat::R8, Extent2::new(2, 1), vec![0u8, 0]);
    tex.set_data(vec![7u8, 8]);
    tex.set_filters(TextureFilter::Linear, TextureFilter::Nearest);
    assert_eq!(tex.data(), &[7, 8][..]);
    assert_eq!(tex.min_filter(), TextureFilter::Linear);
    assert_eq!(tex.mag_filter(), TextureFilter::Nearest);
}

#[test]
fn pad_constructors_fill_each_edge() {
    let all = Pad::all(3);
    assert_eq!((all.left, all.right, all.top, all.bottom), (3, 3, 3, 3));
    let balanced = Pad::balanced(1, 2);
    assert_eq!((balanced.left, balanced.right, balanced.top, balanced.bottom), (1, 1, 2, 2));
    let horizontal = Pad::horizontal(5);
    assert_eq!(
        (horizontal.left, horizontal.right, horizontal.top, horizontal.bottom),
        (5, 5, 0, 0),
    );
    let vertical = Pad::vertical(6);
    assert_eq!((vertical.left, vertical.right, vertical.top, vertical.bottom), (0, 0, 6, 6));
    assert_eq!(Pad::all(3).total(), Extent2::new(6, 6));
    assert_eq!(Pad::balanced(1, 2).offset(), Extent2::new(1, 2));
}

#[test]
fn describe_lists_parts_and_omits_bytes() {
    let tex = Texture::new(TextureFormat::R8, Extent2::new(12, 3), vec![9u8; 36]);
    assert_eq!(tex.describe(), "R8 12x3 nearest/linear");
    let mut tex2 = Texture::new(TextureFormat::Rgba8Srgb, Extent2::new(2, 2), vec![0u8; 16]);
    tex2.set_filters(TextureFilter::Linear, TextureFilter::Nearest);
    assert_eq!(tex2.describe(), "Rgba8Srgb 2x2 linear/nearest");
}
