use vstd::prelude::*;
use vstd::string::StringExecFns;
use crate::text::push_chars;

verus! {

/// The command line of the ASCII renderer.
#[derive(Clone, Debug)]
pub struct Args {
    /// Path of the image to render (not needed with `six`).
    pub input: Option<String>,
    /// Requested width in terminal columns.
    pub width: u32,
    /// Requested height in terminal rows; derived from the aspect ratio when absent.
    pub height: Option<u32>,
    /// Print without colour escapes.
    pub mono: bool,
    /// Use the character ramp from brightest to darkest.
    pub invert: bool,
    /// Pause in milliseconds between printed lines of a still image.
    pub delay: u64,
    /// Spin the image in place.
    pub rotate: bool,
    /// Number of frames in one full turn.
    pub frames: u32,
    /// Pause in milliseconds between animation frames.
    pub frame_delay: Option<u64>,
    /// Directory of frames to play as an animation.
    pub six: Option<String>,
}

/// What the renderer is asked to do.
#[derive(Clone, Debug, PartialEq, Eq)]
pub enum RunPlan {
    /// Play the images of a directory in a loop.
    Sequence { dir: String, frame_delay: u64 },
    /// Spin one image in a loop.
    Rotate { input: String, frame_count: u32, frame_delay: u64 },
    /// Print one image line by line.
    Still { input: String, line_delay: u64 },
}

/// Why no plan could be made.
#[derive(Clone, Copy, Debug, PartialEq, Eq, Structural)]
pub enum PlanError {
    /// Neither an input image nor a frame directory was given.
    MissingInput,
}

/// Decides the run from the command line: a frame directory wins, otherwise
/// an input image is needed, which is spun or printed. Sequences default to
/// 1500 ms between frames, rotations to 50 ms, and a rotation has at least
/// one frame.
pub fn plan_run(args: &Args) -> (r: Result<RunPlan, PlanError>)
    ensures
        args.six matches Some(dir) ==> r == Ok::<RunPlan, PlanError>(
            RunPlan::Sequence {
                dir,
                frame_delay: match args.frame_delay {
                    Some(d) => d,
                    None => 1500,
                },
            },
        ),
        args.six is None && args.input is None ==> r == Err::<RunPlan, PlanError>(
            PlanError::MissingInput,
        ),
        args.six is None && args.rotate ==> (args.input matches Some(input) ==> r == Ok::<
            RunPlan,
            PlanError,
        >(
            RunPlan::Rotate {
                input,
                frame_count: if args.frames >= 1 {
                    args.frames
                } else {
                    1
                },
                frame_delay: match args.frame_delay {
                    Some(d) => d,
                    None => 50,
                },
            },
        )),
        args.six is None && !args.rotate ==> (args.input matches Some(input) ==> r == Ok::<
            RunPlan,
            PlanError,
        >(RunPlan::Still { input, line_delay: args.delay })),
{
    match &args.six {
        Some(dir) => {
            let frame_delay = match args.frame_delay {
                Some(d) => d,
                None => 1500,
            };
            return Ok(RunPlan::Sequence { dir: dir.clone(), frame_delay });
        },
        None => {},
    }
    let input = match &args.input {
        Some(input) => input.clone(),
        None => {
            return Err(PlanError::MissingInput);
        },
    };
    if args.rotate {
        let frame_count = if args.frames >= 1 {
            args.frames
        } else {
            1
        };
        let frame_delay = match args.frame_delay {
            Some(d) => d,
            None => 50,
        };
        Ok(RunPlan::Rotate { input, frame_count, frame_delay })
    } else {
        Ok(RunPlan::Still { input, line_delay: args.delay })
    }
}

/// The character ramp from darkest to brightest.
pub open spec fn standard_ramp() -> Seq<char> {
    seq![' ', '.', ':', '-', '=', '+', '*', '#', '%', '@']
}

/// The ramp the renderer uses: the standard one, reversed when inverted.
pub open spec fn renderer_ramp(invert: bool) -> Seq<char> {
    if invert {
        standard_ramp().reverse()
    } else {
        standard_ramp()
    }
}

/// The ramp the renderer uses: the standard one, reversed when inverted.
pub fn character_ramp(invert: bool) -> (r: Vec<char>)
    ensures
        r@ == renderer_ramp(invert),
        r@.len() == 10,
{
    if invert {
        let r = vec!['@', '%', '#', '*', '+', '=', '-', ':', '.', ' '];
        assert(r@ =~= standard_ramp().reverse());
        r
    } else {
        let r = vec![' ', '.', ':', '-', '=', '+', '*', '#', '%', '@'];
        assert(r@ =~= standard_ramp());
        r
    }
}

/// Neither ramp the renderer uses holds an escape character, so colour
/// output shows the same text as monochrome output (see
/// `ascii_art::lemma_color_shows_mono`).
pub proof fn lemma_ramps_are_plain(invert: bool)
    ensures
        renderer_ramp(invert).len() == 10,
        forall|i: int| 0 <= i < 10 ==> #[trigger] renderer_ramp(invert)[i] != '\x1b',
{
    assert(standard_ramp().reverse() =~= seq!['@', '%', '#', '*', '+', '=', '-', ':', '.', ' ']);
}

/// The ramp runs from a space (darkest) to `@` (brightest); the inverted ramp
/// is the same characters in the opposite order.
pub proof fn lemma_ramp_order(invert: bool)
    ensures
        renderer_ramp(false).len() == 10,
        renderer_ramp(false)[0] == ' ',
        renderer_ramp(false)[9] == '@',
        renderer_ramp(true).len() == 10,
        forall|i: int| 0 <= i < 10 ==> #[trigger] renderer_ramp(true)[i] == renderer_ramp(false)[9 - i],
{
}

/// A requested side of at least 1 is used as it is; a requested height
/// makes the aspect estimate irrelevant; a zero request gives 1.
pub proof fn lemma_target_dims_follow_request(width: u32, height: u32, aspect1: u32, aspect2: u32)
    ensures
        width >= 1 ==> spec_target_dims(width, None, aspect1).0 == width,
        spec_target_dims(0, None, aspect1).0 == 1,
        height >= 1 ==> spec_target_dims(width, Some(height), aspect1).1 == height,
        spec_target_dims(width, Some(height), aspect1) == spec_target_dims(width, Some(height), aspect2),
        aspect1 >= 1 ==> spec_target_dims(width, None, aspect1).1 == aspect1,
{
}

/// Width of the character grid: the requested width, at least 1.
pub fn grid_width(args: &Args) -> (r: u32)
    ensures
        r == (if args.width >= 1 {
            args.width
        } else {
            1
        }),
{
    if args.width >= 1 {
        args.width
    } else {
        1
    }
}

/// The grid size for a requested width and height and an aspect-ratio row
/// estimate: each side at least 1, the height requested if given.
pub open spec fn spec_target_dims(width: u32, height: Option<u32>, aspect_height: u32) -> (u32, u32) {
    (
        if width >= 1 {
            width
        } else {
            1
        },
        match height {
            Some(h) => if h >= 1 {
                h
            } else {
                1
            },
            None => if aspect_height >= 1 {
                aspect_height
            } else {
                1
            },
        },
    )
}

/// A wider request never gives fewer columns, and with the height left to
/// the aspect ratio, a larger estimate never gives fewer rows; a requested
/// height is kept whatever the estimate.
pub proof fn lemma_target_dims_monotone(
    w1: u32,
    w2: u32,
    height: Option<u32>,
    aspect1: u32,
    aspect2: u32,
)
    requires
        w1 <= w2,
        height is None ==> aspect1 <= aspect2,
    ensures
        spec_target_dims(w1, height, aspect1).0 <= spec_target_dims(w2, height, aspect2).0,
        spec_target_dims(w1, height, aspect1).1 <= spec_target_dims(w2, height, aspect2).1,
        height is Some ==> spec_target_dims(w1, height, aspect1).1 == spec_target_dims(w2, height, aspect2).1,
{
}

/// Size of the character grid. The width is the requested one; the height is
/// the requested one if given, else `aspect_height`, the row count that keeps
/// the source's aspect ratio at that width (corrected for terminal cells
/// being about twice as tall as wide). Both are at least 1.
pub fn compute_target_dims(args: &Args, aspect_height: u32) -> (r: (u32, u32))
    ensures
        r == spec_target_dims(args.width, args.height, aspect_height),
        r.0 >= 1 && r.1 >= 1,
{
    let target_width = grid_width(args);
    let target_height = match args.height {
        Some(h) => if h >= 1 {
            h
        } else {
            1
        },
        None => if aspect_height >= 1 {
            aspect_height
        } else {
            1
        },
    };
    (target_width, target_height)
}

/// Begin a synchronized update and move the cursor home.
pub open spec fn frame_prologue() -> Seq<char> {
    seq!['\x1b', '[', '?', '2', '0', '2', '6', 'h', '\x1b', '[', 'H']
}

/// Clear to the end of the line, then start the next one.
pub open spec fn line_epilogue() -> Seq<char> {
    seq!['\x1b', '[', 'K', '\n']
}

/// End the synchronized update.
pub open spec fn frame_epilogue() -> Seq<char> {
    seq!['\x1b', '[', '?', '2', '0', '2', '6', 'l']
}

/// The lines of a frame, each followed by a clear-to-end-of-line and a newline.
pub open spec fn frame_body(lines: Seq<String>) -> Seq<char>
    decreases lines.len(),
{
    if lines.len() == 0 {
        Seq::empty()
    } else {
        frame_body(lines.drop_last()) + lines.last()@ + line_epilogue()
    }
}

/// The text written to redraw the terminal with one frame.
pub open spec fn frame_text(lines: Seq<String>) -> Seq<char> {
    frame_prologue() + frame_body(lines) + frame_epilogue()
}

/// Builds the text that redraws the terminal in one synchronized update:
/// cursor home, every line followed by clear-to-end and newline.
pub fn compose_frame(lines: &[String]) -> (r: String)
    ensures
        r@ == frame_text(lines@),
{
    let mut out = String::new();
    push_chars(&mut out, &['\x1b', '[', '?', '2', '0', '2', '6', 'h', '\x1b', '[', 'H']);
    assert(out@ =~= frame_prologue());
    let mut i: usize = 0;
    while i < lines.len()
        invariant
            i <= lines@.len(),
            out@ == frame_prologue() + frame_body(lines@.subrange(0, i as int)),
        decreases lines@.len() - i,
    {
        let ghost before = out@;
        out.append(lines[i].as_str());
        push_chars(&mut out, &['\x1b', '[', 'K', '\n']);
        proof {
            let s = lines@.subrange(0, i + 1);
            assert(s.drop_last() =~= lines@.subrange(0, i as int));
            assert(s.last() == lines@[i as int]);
            assert(out@ =~= frame_prologue() + frame_body(s));
        }
        i = i + 1;
    }
    assert(lines@.subrange(0, lines@.len() as int) =~= lines@);
    let ghost body = out@;
    push_chars(&mut out, &['\x1b', '[', '?', '2', '0', '2', '6', 'l']);
    assert(out@ =~= body + frame_epilogue());
    out
}

/// A frame is drawn as: begin synchronized update, cursor home, then every
/// line followed by clear-to-end-of-line and a newline, then end of the
/// synchronized update; adding a line adds exactly that line and its ending.
pub proof fn lemma_frame_layout(lines: Seq<String>, line: String)
    ensures
        frame_text(Seq::empty()) == seq!['\x1b', '[', '?', '2', '0', '2', '6', 'h', '\x1b', '[', 'H']
            + seq!['\x1b', '[', '?', '2', '0', '2', '6', 'l'],
        frame_body(lines.push(line)) == frame_body(lines) + line@ + seq!['\x1b', '[', 'K', '\n'],
        frame_text(lines) == seq!['\x1b', '[', '?', '2', '0', '2', '6', 'h', '\x1b', '[', 'H']
            + frame_body(lines) + seq!['\x1b', '[', '?', '2', '0', '2', '6', 'l'],
{
    assert(lines.push(line).drop_last() =~= lines);
    assert(frame_text(Seq::empty()) =~= seq!['\x1b', '[', '?', '2', '0', '2', '6', 'h', '\x1b', '[', 'H']
        + seq!['\x1b', '[', '?', '2', '0', '2', '6', 'l']);
}

/// Position of a looping animation.
pub struct Animation {
    frame_count: usize,
    step: usize,
}

impl Animation {
    /// An animation always has at least one frame.
    #[verifier::type_invariant]
    spec fn has_frames(self) -> bool {
        self.frame_count > 0
    }

    pub closed spec fn spec_frame_count(self) -> nat {
        self.frame_count as nat
    }

    pub closed spec fn spec_step(self) -> nat {
        self.step as nat
    }

    /// Starts an animation of `frame_count` frames, or gives `None` when
    /// there is nothing to play.
    pub fn new(frame_count: usize) -> (r: Option<Animation>)
        ensures
            r is Some <==> frame_count > 0,
            r matches Some(a) ==> a.spec_frame_count() == frame_count && a.spec_step() == 0,
    {
        if frame_count == 0 {
            None
        } else {
            Some(Animation { frame_count, step: 0 })
        }
    }

    /// Index of the frame to show now: the step count modulo the number of frames.
    pub fn current_frame(&self) -> (r: usize)
        ensures
            self.spec_frame_count() > 0,
            r == self.spec_step() % self.spec_frame_count(),
            r < self.spec_frame_count(),
    {
        proof {
            use_type_invariant(self);
        }
        self.step % self.frame_count
    }

    /// Moves to the next step; the step counter wraps around at `usize::MAX`.
    pub fn advance(&mut self)
        ensures
            final(self).spec_frame_count() == old(self).spec_frame_count(),
            final(self).spec_step() == (if old(self).spec_step() == usize::MAX {
                0
            } else {
                old(self).spec_step() + 1
            }),
    {
        proof {
            use_type_invariant(&*self);
        }
        self.step = self.step.wrapping_add(1);
    }
}

/// A looping animation shows the same frame again after a full cycle.
pub proof fn lemma_animation_cycles(step: nat, frame_count: nat)
    requires
        frame_count > 0,
    ensures
        (step + frame_count) % frame_count == step % frame_count,
        step % frame_count < frame_count,
{
    vstd::arithmetic::div_mod::lemma_mod_add_multiples_vanish(step as int, frame_count as int);
}

} // verus!
