use harmony_lab::palette::{default_color, default_palette, hl, hl_dark, prefers_black_text, Rgb};

#[test]
fn default_colors() {
    assert_eq!(default_color(0), Rgb { r: 210, g: 43, b: 43 });
    assert_eq!(default_color(4), Rgb { r: 255, g: 191, b: 0 });
    assert_eq!(default_color(11), Rgb { r: 204, g: 204, b: 255 });
    let p = default_palette();
    assert_eq!(p.len(), 12);
    for (pc, c) in p.iter().enumerate() {
        assert_eq!(*c, default_color(pc));
    }
}

#[test]
fn highlights_saturate() {
    assert_eq!(hl(Rgb { r: 250, g: 10, b: 225 }), Rgb { r: 255, g: 40, b: 255 });
    assert_eq!(hl(Rgb { r: 0, g: 0, b: 0 }), Rgb { r: 30, g: 30, b: 30 });
    assert_eq!(hl_dark(Rgb { r: 205, g: 206, b: 15 }), Rgb { r: 255, g: 255, b: 65 });
    assert_eq!(hl_dark(Rgb { r: 255, g: 255, b: 255 }), Rgb { r: 255, g: 255, b: 255 });
}

#[test]
fn label_color_on_notes() {
    // 255 + 191 + 0 = 446 > 400: yellow E gets black text.
    assert!(prefers_black_text(default_color(4)));
    // 210 + 43 + 43 = 296: red C gets white text.
    assert!(!prefers_black_text(default_color(0)));
    assert!(!prefers_black_text(Rgb { r: 200, g: 200, b: 0 }));
    assert!(prefers_black_text(Rgb { r: 200, g: 200, b: 1 }));
}
