use ywpm::display_mode::{AlignX, AlignY, DisplayMode, FitMode};

#[test]
fn default_mode_is_cover_center() {
    let m = DisplayMode::new();
    assert_eq!(m.fit_mode, FitMode::Cover);
    assert_eq!(m.align_x, AlignX::Center);
    assert_eq!(m.align_y, AlignY::Center);
    assert!(m.is_default());
    assert_eq!(m.to_display_string(), "cover center");
}

#[test]
fn parse_words_in_any_case() {
    let m = DisplayMode::parse("Contain  TOP left").unwrap();
    assert_eq!(m, DisplayMode::new_with_fields(FitMode::Contain, AlignX::Left, AlignY::Top));
    assert_eq!(m.to_display_string(), "contain left top");
}

#[test]
fn parse_rejects_unknown_word() {
    assert!(DisplayMode::parse("cover middle").is_err());
}

#[test]
fn display_then_parse_gives_same_mode() {
    let fits = [FitMode::Cover, FitMode::Contain, FitMode::Stretch];
    let xs = [AlignX::Left, AlignX::Center, AlignX::Right];
    let ys = [AlignY::Top, AlignY::Center, AlignY::Bottom];
    for f in fits {
        for x in xs {
            for y in ys {
                let m = DisplayMode::new_with_fields(f, x, y);
                let shown = m.to_display_string();
                assert_eq!(DisplayMode::parse(&shown).unwrap(), m);
            }
        }
    }
}

#[test]
fn upper_cased_display_text_parses_back() {
    let modes = [
        DisplayMode::new(),
        DisplayMode::new_with_fields(FitMode::Contain, AlignX::Left, AlignY::Top),
        DisplayMode::new_with_fields(FitMode::Stretch, AlignX::Right, AlignY::Center),
        DisplayMode::new_with_fields(FitMode::Cover, AlignX::Center, AlignY::Bottom),
    ];
    for m in modes {
        let upper = m.to_display_string().to_uppercase();
        assert_eq!(DisplayMode::parse(&upper).ok(), Some(m));
        let s: DisplayMode = upper.parse().unwrap();
        assert_eq!(s, m);
    }
    assert_eq!(
        DisplayMode::parse("CoNtAiN lEfT tOp").ok(),
        Some(DisplayMode::new_with_fields(FitMode::Contain, AlignX::Left, AlignY::Top))
    );
}
