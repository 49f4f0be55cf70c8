use rust_fun_apps::controls::{
    constellation_span, outline_segments, ColorTheme, ControlAction, ControlKey, Controls,
    RenderMode,
};

#[test]
fn theme_names() {
    assert_eq!(ColorTheme::Cyberpunk.name(), "Cyberpunk (Magenta/Cyan/Purple)");
    assert_eq!(ColorTheme::NeonRainbow.name(), "Neon Rainbow");
    assert_eq!(ColorTheme::Volcano.name(), "Volcano (Red/Orange)");
    assert_eq!(ColorTheme::Matrix.name(), "Matrix (Digital Green)");
}

#[test]
fn theme_cycle_has_length_four() {
    let start = ColorTheme::Volcano;
    let mut t = start;
    for step in 1..=4 {
        t = t.next();
        if step < 4 {
            assert_ne!(t, start);
        }
    }
    assert_eq!(t, start);
    assert_eq!(ColorTheme::Cyberpunk.next(), ColorTheme::NeonRainbow);
    assert_eq!(ColorTheme::Matrix.next(), ColorTheme::Cyberpunk);
}

#[test]
fn mode_names_and_cycle() {
    assert_eq!(RenderMode::Particles.name(), "Particles (Gravity Flow)");
    assert_eq!(RenderMode::Liquid.name(), "Liquid Constellation (Fluid Web)");
    assert_eq!(RenderMode::SpectrumLines.name(), "Ring Spectrum (Path Snapping)");
    assert_eq!(RenderMode::Waveform.name(), "Oscilloscope Waveform (Flow Wave)");
    assert_eq!(RenderMode::Particles.next(), RenderMode::Liquid);
    assert_eq!(RenderMode::Waveform.next(), RenderMode::Particles);
    let m = RenderMode::Liquid;
    assert_eq!(m.next().next().next().next(), m);
}

#[test]
fn active_counts_follow_mode() {
    assert_eq!(RenderMode::Particles.active_count(3000), 3000);
    assert_eq!(RenderMode::Liquid.active_count(10000), 10000);
    assert_eq!(RenderMode::SpectrumLines.active_count(3000), 500);
    assert_eq!(RenderMode::Waveform.active_count(1000), 500);
    assert!(RenderMode::Waveform.snaps_to_path());
    assert!(!RenderMode::Liquid.snaps_to_path());
}

#[test]
fn bouncing_rules() {
    assert!(RenderMode::Particles.bounces(false));
    assert!(RenderMode::Liquid.bounces(true));
    assert!(!RenderMode::SpectrumLines.bounces(false));
    assert!(RenderMode::Waveform.bounces(true));
}

#[test]
fn initial_controls() {
    let c = Controls::new();
    assert_eq!(c.theme, ColorTheme::Cyberpunk);
    assert_eq!(c.render_mode, RenderMode::Particles);
    assert_eq!(c.particle_count, 5000);
    assert!(c.attract_mode);
    assert!(!c.audio_muted);
    assert_eq!(c.active_count(), 5000);
}

#[test]
fn mode_key_resets_with_mode_count() {
    let mut c = Controls::new();
    assert_eq!(c.handle_key(ControlKey::CycleMode), ControlAction::ResetParticles { count: 5000 });
    assert_eq!(c.render_mode, RenderMode::Liquid);
    assert_eq!(c.handle_key(ControlKey::CycleMode), ControlAction::ResetParticles { count: 500 });
    assert_eq!(c.render_mode, RenderMode::SpectrumLines);
    // A count key in a path mode records the count but still resets with 500.
    assert_eq!(c.handle_key(ControlKey::Count4), ControlAction::ResetParticles { count: 500 });
    assert_eq!(c.particle_count, 10000);
    assert_eq!(c.handle_key(ControlKey::CycleMode), ControlAction::ResetParticles { count: 500 });
    assert_eq!(c.handle_key(ControlKey::CycleMode), ControlAction::ResetParticles { count: 10000 });
    assert_eq!(c.render_mode, RenderMode::Particles);
}

#[test]
fn count_keys() {
    let mut c = Controls::new();
    assert_eq!(c.handle_key(ControlKey::Count1), ControlAction::ResetParticles { count: 1000 });
    assert_eq!(c.handle_key(ControlKey::Count2), ControlAction::ResetParticles { count: 3000 });
    assert_eq!(c.handle_key(ControlKey::Count3), ControlAction::ResetParticles { count: 5000 });
    assert_eq!(c.handle_key(ControlKey::Count4), ControlAction::ResetParticles { count: 10000 });
    assert_eq!(c.handle_key(ControlKey::Reset), ControlAction::ResetParticles { count: 10000 });
}

#[test]
fn toggles_and_theme() {
    let mut c = Controls::new();
    let start = c;
    assert_eq!(c.handle_key(ControlKey::ToggleGravity), ControlAction::Keep);
    assert!(!c.attract_mode);
    assert_eq!(c.handle_key(ControlKey::ToggleMute), ControlAction::Keep);
    assert!(c.audio_muted);
    assert_eq!(c.handle_key(ControlKey::ToggleGravity), ControlAction::Keep);
    assert_eq!(c.handle_key(ControlKey::ToggleMute), ControlAction::Keep);
    assert_eq!(c, start);
    assert_eq!(c.handle_key(ControlKey::CycleTheme), ControlAction::Recolor);
    assert_eq!(c.theme, ColorTheme::NeonRainbow);
}

#[test]
fn ring_and_wave_segments() {
    assert_eq!(outline_segments(RenderMode::SpectrumLines, 3), vec![(0, 1), (1, 2), (2, 0)]);
    assert_eq!(outline_segments(RenderMode::Waveform, 3), vec![(0, 1), (1, 2)]);
    assert_eq!(outline_segments(RenderMode::SpectrumLines, 1), vec![]);
    assert_eq!(outline_segments(RenderMode::Particles, 5), vec![]);
    assert_eq!(outline_segments(RenderMode::Waveform, 500).len(), 499);
    assert_eq!(outline_segments(RenderMode::SpectrumLines, 500).len(), 500);
}

#[test]
fn constellation_is_capped() {
    assert_eq!(constellation_span(500), 500);
    assert_eq!(constellation_span(1200), 1200);
    assert_eq!(constellation_span(5000), 1200);
}
