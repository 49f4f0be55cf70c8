use vstd::prelude::*;

verus! {

/// The colour palettes that particles are painted with.
#[derive(Clone, Copy, Debug, PartialEq, Eq, Structural)]
pub enum ColorTheme {
    Cyberpunk,
    NeonRainbow,
    Volcano,
    Matrix,
}

/// The ways the particle field is drawn.
#[derive(Clone, Copy, Debug, PartialEq, Eq, Structural)]
pub enum RenderMode {
    Particles,
    Liquid,
    SpectrumLines,
    Waveform,
}

/// The theme that the colour key switches to.
pub open spec fn next_theme(t: ColorTheme) -> ColorTheme {
    match t {
        ColorTheme::Cyberpunk => ColorTheme::NeonRainbow,
        ColorTheme::NeonRainbow => ColorTheme::Volcano,
        ColorTheme::Volcano => ColorTheme::Matrix,
        ColorTheme::Matrix => ColorTheme::Cyberpunk,
    }
}

/// The mode that the visual-mode key switches to.
pub open spec fn next_mode(m: RenderMode) -> RenderMode {
    match m {
        RenderMode::Particles => RenderMode::Liquid,
        RenderMode::Liquid => RenderMode::SpectrumLines,
        RenderMode::SpectrumLines => RenderMode::Waveform,
        RenderMode::Waveform => RenderMode::Particles,
    }
}

/// Modes in which particles are pulled back onto a path (ring or wave).
pub open spec fn is_path_mode(m: RenderMode) -> bool {
    m == RenderMode::SpectrumLines || m == RenderMode::Waveform
}

/// Number of particles a mode runs with: path modes always use 500,
/// the free modes use the chosen particle count.
pub open spec fn spec_active_count(m: RenderMode, particle_count: usize) -> usize {
    if is_path_mode(m) {
        500
    } else {
        particle_count
    }
}

impl ColorTheme {
    /// The label shown in the on-screen panel.
    pub fn name(&self) -> (r: &'static str)
        ensures
            r@ == (match *self {
                ColorTheme::Cyberpunk => "Cyberpunk (Magenta/Cyan/Purple)"@,
                ColorTheme::NeonRainbow => "Neon Rainbow"@,
                ColorTheme::Volcano => "Volcano (Red/Orange)"@,
                ColorTheme::Matrix => "Matrix (Digital Green)"@,
            }),
    {
        match self {
            ColorTheme::Cyberpunk => "Cyberpunk (Magenta/Cyan/Purple)",
            ColorTheme::NeonRainbow => "Neon Rainbow",
            ColorTheme::Volcano => "Volcano (Red/Orange)",
            ColorTheme::Matrix => "Matrix (Digital Green)",
        }
    }

    /// The theme that follows this one in the cycle.
    pub fn next(&self) -> (r: ColorTheme)
        ensures
            r == next_theme(*self),
    {
        match self {
            ColorTheme::Cyberpunk => ColorTheme::NeonRainbow,
            ColorTheme::NeonRainbow => ColorTheme::Volcano,
            ColorTheme::Volcano => ColorTheme::Matrix,
            ColorTheme::Matrix => ColorTheme::Cyberpunk,
        }
    }
}

impl RenderMode {
    /// The label shown in the on-screen panel.
    pub fn name(&self) -> (r: &'static str)
        ensures
            r@ == (match *self {
                RenderMode::Particles => "Particles (Gravity Flow)"@,
                RenderMode::Liquid => "Liquid Constellation (Fluid Web)"@,
                RenderMode::SpectrumLines => "Ring Spectrum (Path Snapping)"@,
                RenderMode::Waveform => "Oscilloscope Waveform (Flow Wave)"@,
            }),
    {
        match self {
            RenderMode::Particles => "Particles (Gravity Flow)",
            RenderMode::Liquid => "Liquid Constellation (Fluid Web)",
            RenderMode::SpectrumLines => "Ring Spectrum (Path Snapping)",
            RenderMode::Waveform => "Oscilloscope Waveform (Flow Wave)",
        }
    }

    /// The mode that follows this one in the cycle.
    pub fn next(&self) -> (r: RenderMode)
        ensures
            r == next_mode(*self),
    {
        match self {
            RenderMode::Particles => RenderMode::Liquid,
            RenderMode::Liquid => RenderMode::SpectrumLines,
            RenderMode::SpectrumLines => RenderMode::Waveform,
            RenderMode::Waveform => RenderMode::Particles,
        }
    }

    /// Whether particles in this mode are pulled back onto a ring or a wave.
    pub fn snaps_to_path(&self) -> (r: bool)
        ensures
            r == is_path_mode(*self),
    {
        match self {
            RenderMode::SpectrumLines | RenderMode::Waveform => true,
            _ => false,
        }
    }

    /// How many particles this mode runs with for a chosen particle count.
    pub fn active_count(&self, particle_count: usize) -> (r: usize)
        ensures
            r == spec_active_count(*self, particle_count),
    {
        match self {
            RenderMode::SpectrumLines | RenderMode::Waveform => 500,
            _ => particle_count,
        }
    }

    /// Whether particles bounce off the window edges: always in the free
    /// modes, and in the path modes only while the mouse pulls them.
    pub fn bounces(&self, mouse_active: bool) -> (r: bool)
        ensures
            r == (!is_path_mode(*self) || mouse_active),
    {
        match self {
            RenderMode::Particles | RenderMode::Liquid => true,
            _ => mouse_active,
        }
    }
}


/// The discrete keys that change the simulator's state.
#[derive(Clone, Copy, Debug, PartialEq, Eq, Structural)]
pub enum ControlKey {
    /// Re-create the particles.
    Reset,
    /// Switch between attraction and repulsion.
    ToggleGravity,
    /// Go to the next visual mode.
    CycleMode,
    /// Mute or unmute the audio reactivity.
    ToggleMute,
    /// Go to the next colour theme.
    CycleTheme,
    /// Choose 1000 particles.
    Count1,
    /// Choose 3000 particles.
    Count2,
    /// Choose 5000 particles.
    Count3,
    /// Choose 10000 particles.
    Count4,
}

/// What the frame loop must do after a key was handled.
#[derive(Clone, Copy, Debug, PartialEq, Eq, Structural)]
pub enum ControlAction {
    /// Nothing beyond the state change.
    Keep,
    /// Throw the particles away and create this many new ones for the current mode.
    ResetParticles { count: usize },
    /// Give every particle a fresh colour (and size) from the current theme.
    Recolor,
}

/// The discrete state of the simulator (the continuous gravity and friction
/// settings live with the physics).
#[derive(Clone, Copy, Debug, PartialEq, Eq, Structural)]
pub struct Controls {
    pub theme: ColorTheme,
    pub render_mode: RenderMode,
    pub particle_count: usize,
    pub attract_mode: bool,
    pub audio_muted: bool,
}

/// The particle count that a count key selects.
pub open spec fn count_for_key(key: ControlKey) -> usize {
    match key {
        ControlKey::Count1 => 1000,
        ControlKey::Count2 => 3000,
        ControlKey::Count3 => 5000,
        _ => 10000,
    }
}

pub open spec fn is_count_key(key: ControlKey) -> bool {
    key == ControlKey::Count1 || key == ControlKey::Count2 || key == ControlKey::Count3
        || key == ControlKey::Count4
}

/// The state after a key press.
pub open spec fn step_state(s: Controls, key: ControlKey) -> Controls {
    match key {
        ControlKey::Reset => s,
        ControlKey::ToggleGravity => Controls { attract_mode: !s.attract_mode, ..s },
        ControlKey::CycleMode => Controls { render_mode: next_mode(s.render_mode), ..s },
        ControlKey::ToggleMute => Controls { audio_muted: !s.audio_muted, ..s },
        ControlKey::CycleTheme => Controls { theme: next_theme(s.theme), ..s },
        _ => Controls { particle_count: count_for_key(key), ..s },
    }
}

/// The action that goes with a key press, taken in the state after it.
pub open spec fn step_action(s: Controls, key: ControlKey) -> ControlAction {
    let t = step_state(s, key);
    if key == ControlKey::Reset || key == ControlKey::CycleMode || is_count_key(key) {
        ControlAction::ResetParticles { count: spec_active_count(t.render_mode, t.particle_count) }
    } else if key == ControlKey::CycleTheme {
        ControlAction::Recolor
    } else {
        ControlAction::Keep
    }
}

impl Controls {
    /// The state the simulator starts in.
    pub fn new() -> (r: Controls)
        ensures
            r == (Controls {
                theme: ColorTheme::Cyberpunk,
                render_mode: RenderMode::Particles,
                particle_count: 5000,
                attract_mode: true,
                audio_muted: false,
            }),
    {
        Controls {
            theme: ColorTheme::Cyberpunk,
            render_mode: RenderMode::Particles,
            particle_count: 5000,
            attract_mode: true,
            audio_muted: false,
        }
    }

    /// Number of particles the current mode runs with.
    pub fn active_count(&self) -> (r: usize)
        ensures
            r == spec_active_count(self.render_mode, self.particle_count),
    {
        self.render_mode.active_count(self.particle_count)
    }

    /// Applies a key press and says what the frame loop has to do next.
    pub fn handle_key(&mut self, key: ControlKey) -> (r: ControlAction)
        ensures
            *final(self) == step_state(*old(self), key),
            r == step_action(*old(self), key),
    {
        match key {
            ControlKey::Reset => {},
            ControlKey::ToggleGravity => {
                self.attract_mode = !self.attract_mode;
            },
            ControlKey::CycleMode => {
                self.render_mode = self.render_mode.next();
            },
            ControlKey::ToggleMute => {
                self.audio_muted = !self.audio_muted;
            },
            ControlKey::CycleTheme => {
                self.theme = self.theme.next();
            },
            ControlKey::Count1 => {
                self.particle_count = 1000;
            },
            ControlKey::Count2 => {
                self.particle_count = 3000;
            },
            ControlKey::Count3 => {
                self.particle_count = 5000;
            },
            ControlKey::Count4 => {
                self.particle_count = 10000;
            },
        }
        match key {
            ControlKey::Reset | ControlKey::CycleMode | ControlKey::Count1 | ControlKey::Count2
            | ControlKey::Count3 | ControlKey::Count4 => {
                ControlAction::ResetParticles { count: self.active_count() }
            },
            ControlKey::CycleTheme => ControlAction::Recolor,
            _ => ControlAction::Keep,
        }
    }
}

/// The pairs of particle indices joined by a line in the path modes: a closed
/// ring in the spectrum mode, an open polyline in the waveform mode, none
/// otherwise (and none with fewer than two particles).
pub open spec fn spec_outline_segments(mode: RenderMode, count: nat) -> Seq<(usize, usize)> {
    if count <= 1 {
        Seq::empty()
    } else if mode == RenderMode::SpectrumLines {
        Seq::new(count, |i: int| (i as usize, ((i + 1) % (count as int)) as usize))
    } else if mode == RenderMode::Waveform {
        Seq::new((count - 1) as nat, |i: int| (i as usize, (i + 1) as usize))
    } else {
        Seq::empty()
    }
}

/// Lists the line segments drawn between consecutive particles in the path modes.
pub fn outline_segments(mode: RenderMode, count: usize) -> (r: Vec<(usize, usize)>)
    ensures
        r@ == spec_outline_segments(mode, count as nat),
{
    let mut segments: Vec<(usize, usize)> = Vec::new();
    if count > 1 {
        match mode {
            RenderMode::SpectrumLines => {
                let mut i: usize = 0;
                while i < count
                    invariant
                        i <= count,
                        count > 1,
                        segments@ == Seq::new(
                            i as nat,
                            |k: int| (k as usize, ((k + 1) % (count as int)) as usize),
                        ),
                    decreases count - i,
                {
                    let j: usize = if i + 1 == count { 0 } else { i + 1 };
                    proof {
                        if i + 1 == count {
                            vstd::arithmetic::div_mod::lemma_mod_self_0(count as int);
                        } else {
                            vstd::arithmetic::div_mod::lemma_small_mod((i + 1) as nat, count as nat);
                        }
                    }
                    segments.push((i, j));
                    assert(segments@ =~= Seq::new(
                        (i + 1) as nat,
                        |k: int| (k as usize, ((k + 1) % (count as int)) as usize),
                    ));
                    i = i + 1;
                }
            },
            RenderMode::Waveform => {
                let mut i: usize = 0;
                while i + 1 < count
                    invariant
                        i + 1 <= count,
                        segments@ == Seq::new(i as nat, |k: int| (k as usize, (k + 1) as usize)),
                    decreases count - i,
                {
                    segments.push((i, i + 1));
                    assert(segments@ =~= Seq::new((i + 1) as nat, |k: int| (k as usize, (k + 1) as usize)));
                    i = i + 1;
                }
            },
            _ => {},
        }
    }
    segments
}

/// In the ring mode every particle is joined to the next one and the last
/// to the first, closing the outline; in the waveform mode every particle but
/// the last is joined to the next one; other modes draw no outline.
pub proof fn lemma_outline_joins_neighbours(mode: RenderMode, count: nat)
    ensures
        mode == RenderMode::SpectrumLines && count > 1 ==> spec_outline_segments(mode, count).len()
            == count && forall|i: int|
            0 <= i < count ==> #[trigger] spec_outline_segments(mode, count)[i] == (
                i as usize,
                (if i + 1 == count {
                    0
                } else {
                    i + 1
                }) as usize,
            ),
        mode == RenderMode::Waveform && count > 1 ==> spec_outline_segments(mode, count).len()
            == count - 1 && forall|i: int|
            0 <= i < count - 1 ==> #[trigger] spec_outline_segments(mode, count)[i] == (
                i as usize,
                (i + 1) as usize,
            ),
        !is_path_mode(mode) || count <= 1 ==> spec_outline_segments(mode, count).len() == 0,
{
    if mode == RenderMode::SpectrumLines && count > 1 {
        assert forall|i: int| 0 <= i < count implies #[trigger] spec_outline_segments(mode, count)[i]
            == (i as usize, (if i + 1 == count {
            0
        } else {
            i + 1
        }) as usize) by {
            if i + 1 == count {
                vstd::arithmetic::div_mod::lemma_mod_self_0(count as int);
            } else {
                vstd::arithmetic::div_mod::lemma_small_mod((i + 1) as nat, count);
            }
        }
    }
}

/// Number of particles that take part in the constellation lines of the
/// liquid mode: at most 1200, to keep the pairwise pass affordable.
pub fn constellation_span(particle_len: usize) -> (r: usize)
    ensures
        r == (if particle_len < 1200 { particle_len } else { 1200 }),
{
    if particle_len < 1200 {
        particle_len
    } else {
        1200
    }
}

/// The colour cycle has length four: four presses bring back the same theme,
/// and fewer never do.
pub proof fn lemma_theme_cycle(t: ColorTheme)
    ensures
        next_theme(next_theme(next_theme(next_theme(t)))) == t,
        next_theme(t) != t,
        next_theme(next_theme(t)) != t,
        next_theme(next_theme(next_theme(t))) != t,
{
}

/// The visual-mode cycle has length four: four presses bring back the same
/// mode, and fewer never do.
pub proof fn lemma_mode_cycle(m: RenderMode)
    ensures
        next_mode(next_mode(next_mode(next_mode(m)))) == m,
        next_mode(m) != m,
        next_mode(next_mode(m)) != m,
        next_mode(next_mode(next_mode(m))) != m,
{
}

/// Every reset that a key asks for creates exactly as many particles as the
/// new state's mode runs with: 500 in the ring and wave modes, the chosen
/// count otherwise.
pub proof fn lemma_reset_matches_mode(s: Controls, key: ControlKey)
    ensures
        step_action(s, key) matches ControlAction::ResetParticles { count } ==> count
            == spec_active_count(step_state(s, key).render_mode, step_state(s, key).particle_count),
        step_action(s, key) matches ControlAction::ResetParticles { count } ==> (
        is_path_mode(step_state(s, key).render_mode) ==> count == 500),
{
}

/// The reset key keeps every setting and recreates the particles for the
/// current mode.
pub proof fn lemma_reset_key(s: Controls)
    ensures
        step_state(s, ControlKey::Reset) == s,
        step_action(s, ControlKey::Reset) == (ControlAction::ResetParticles {
            count: spec_active_count(s.render_mode, s.particle_count),
        }),
{
}

/// Each key changes only its own setting: the mute key only the mute flag,
/// the gravity key only the attraction flag, the mode key only the mode, the
/// colour key only the theme, a count key only the count, and the reset key
/// nothing.
pub proof fn lemma_keys_change_only_their_setting(s: Controls, key: ControlKey)
    ensures
        step_state(s, key).audio_muted == (if key == ControlKey::ToggleMute {
            !s.audio_muted
        } else {
            s.audio_muted
        }),
        step_state(s, key).attract_mode == (if key == ControlKey::ToggleGravity {
            !s.attract_mode
        } else {
            s.attract_mode
        }),
        key != ControlKey::CycleMode ==> step_state(s, key).render_mode == s.render_mode,
        key != ControlKey::CycleTheme ==> step_state(s, key).theme == s.theme,
        !is_count_key(key) ==> step_state(s, key).particle_count == s.particle_count,
        key == ControlKey::CycleMode ==> step_state(s, key).render_mode != s.render_mode,
        key == ControlKey::CycleTheme ==> step_state(s, key).theme != s.theme,
{
}

/// The keys 1 to 4 choose 1000, 3000, 5000 and 10000 particles; the colour
/// key walks Cyberpunk, Neon Rainbow, Volcano, Matrix; the mode key walks
/// Particles, Liquid, Ring Spectrum, Waveform; the free modes run the chosen
/// count.
pub proof fn lemma_key_table(s: Controls)
    ensures
        step_state(s, ControlKey::Count1).particle_count == 1000,
        step_state(s, ControlKey::Count2).particle_count == 3000,
        step_state(s, ControlKey::Count3).particle_count == 5000,
        step_state(s, ControlKey::Count4).particle_count == 10000,
        next_theme(ColorTheme::Cyberpunk) == ColorTheme::NeonRainbow,
        next_theme(ColorTheme::NeonRainbow) == ColorTheme::Volcano,
        next_theme(ColorTheme::Volcano) == ColorTheme::Matrix,
        next_theme(ColorTheme::Matrix) == ColorTheme::Cyberpunk,
        next_mode(RenderMode::Particles) == RenderMode::Liquid,
        next_mode(RenderMode::Liquid) == RenderMode::SpectrumLines,
        next_mode(RenderMode::SpectrumLines) == RenderMode::Waveform,
        next_mode(RenderMode::Waveform) == RenderMode::Particles,
        !is_path_mode(s.render_mode) ==> spec_active_count(s.render_mode, s.particle_count)
            == s.particle_count,
        is_path_mode(s.render_mode) <==> (s.render_mode == RenderMode::SpectrumLines
            || s.render_mode == RenderMode::Waveform),
{
}

/// Pressing a toggle key twice restores the state, and a toggle never
/// asks for a reset.
pub proof fn lemma_toggles_are_involutions(s: Controls)
    ensures
        step_state(step_state(s, ControlKey::ToggleGravity), ControlKey::ToggleGravity) == s,
        step_state(step_state(s, ControlKey::ToggleMute), ControlKey::ToggleMute) == s,
        step_action(s, ControlKey::ToggleGravity) == ControlAction::Keep,
        step_action(s, ControlKey::ToggleMute) == ControlAction::Keep,
{
}

/// Cycling the visual mode four times returns to the starting state.
pub proof fn lemma_mode_key_cycle(s: Controls)
    ensures
        step_state(
            step_state(
                step_state(step_state(s, ControlKey::CycleMode), ControlKey::CycleMode),
                ControlKey::CycleMode,
            ),
            ControlKey::CycleMode,
        ) == s,
{
    lemma_mode_cycle(s.render_mode);
}

/// A count key sets the chosen count whatever the mode, and leaves the
/// theme, mode and toggles alone.
pub proof fn lemma_count_keys(s: Controls, key: ControlKey)
    requires
        is_count_key(key),
    ensures
        step_state(s, key).particle_count == count_for_key(key),
        step_state(s, key).render_mode == s.render_mode,
        step_state(s, key).theme == s.theme,
        step_state(s, key).attract_mode == s.attract_mode,
        step_state(s, key).audio_muted == s.audio_muted,
{
}

} // verus!
