use minecraft_raytracer::controls::{
    fps_rating, quality_label, render_scale, FpsRating, QualityChange, RenderControls,
};

#[test]
fn quality_levels_scale_the_render() {
    assert_eq!(render_scale(0), 4);
    assert_eq!(render_scale(1), 2);
    assert_eq!(render_scale(2), 1);
    assert_eq!(render_scale(7), 1);
}

#[test]
fn keys_choose_quality_and_toggle_modes() {
    let mut c = RenderControls::new();
    assert_eq!((c.quality_level, c.manual_quality_level), (1, 1));
    assert!(c.use_threading && !c.auto_quality);
    c.apply_keys(true, false, false, false, false);
    assert_eq!((c.quality_level, c.manual_quality_level), (0, 0));
    c.apply_keys(false, false, false, false, true);
    assert!(!c.use_threading);
    c.apply_keys(false, false, false, true, false);
    assert!(c.auto_quality);
    // While scaling automatically, a key only records the choice.
    c.apply_keys(false, false, true, false, false);
    assert_eq!((c.quality_level, c.manual_quality_level), (0, 2));
    // Turning automatic scaling off restores the choice.
    c.apply_keys(false, false, false, true, false);
    assert!(!c.auto_quality);
    assert_eq!(c.quality_level, 2);
}

#[test]
fn history_keeps_ten_newest() {
    let mut c = RenderControls::new();
    for f in 0..12u32 {
        c.record_fps(f);
    }
    assert_eq!(c.fps_history, (2..12).collect::<Vec<u32>>());
}

#[test]
fn slow_frames_lower_the_quality() {
    let mut c = RenderControls::new();
    c.apply_keys(false, false, true, true, false);
    assert_eq!(c.quality_level, 2);
    for _ in 0..4 {
        c.record_fps(10);
    }
    assert_eq!(c.adjust(true), None);
    c.record_fps(15);
    assert_eq!(c.adjust(false), None);
    assert_eq!(c.adjust(true), Some(QualityChange::Lowered(11)));
    assert_eq!(c.quality_level, 1);
    assert_eq!(c.adjust(true), Some(QualityChange::Lowered(11)));
    assert_eq!(c.quality_level, 0);
    assert_eq!(c.adjust(true), Some(QualityChange::Kept(11)));
    assert_eq!(c.quality_level, 0);
}

#[test]
fn fast_frames_restore_the_chosen_quality() {
    let mut c = RenderControls::new();
    c.apply_keys(false, true, false, true, false);
    for _ in 0..5 {
        c.record_fps(10);
    }
    assert_eq!(c.adjust(true), Some(QualityChange::Lowered(10)));
    assert_eq!(c.quality_level, 0);
    for _ in 0..10 {
        c.record_fps(60);
    }
    assert_eq!(c.adjust(true), Some(QualityChange::Raised(60)));
    assert_eq!(c.quality_level, 1);
    assert_eq!(c.adjust(true), Some(QualityChange::Kept(60)));
    assert_eq!(c.quality_level, 1);
}

#[test]
fn labels_and_ratings() {
    assert_eq!(quality_label(0), "Low (4x)");
    assert_eq!(quality_label(1), "Medium (2x)");
    assert_eq!(quality_label(2), "High (1x)");
    assert_eq!(fps_rating(60), FpsRating::Good);
    assert_eq!(fps_rating(50), FpsRating::Good);
    assert_eq!(fps_rating(49), FpsRating::Fair);
    assert_eq!(fps_rating(25), FpsRating::Fair);
    assert_eq!(fps_rating(24), FpsRating::Poor);
}
