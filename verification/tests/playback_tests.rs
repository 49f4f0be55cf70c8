use rust_fun_apps::playback::{
    character_ramp, compose_frame, compute_target_dims, grid_width, plan_run, Animation, Args,
    PlanError, RunPlan,
};
use rust_fun_apps::sequence::{is_sequence_file_exec, select_sequence_files, SequenceError};

fn args() -> Args {
    Args {
        input: Some("cat.png".to_string()),
        width: 100,
        height: None,
        mono: false,
        invert: false,
        delay: 30,
        rotate: false,
        frames: 60,
        frame_delay: None,
        six: None,
    }
}

#[test]
fn plans() {
    let a = args();
    assert_eq!(plan_run(&a), Ok(RunPlan::Still { input: "cat.png".to_string(), line_delay: 30 }));
    let mut r = args();
    r.rotate = true;
    assert_eq!(
        plan_run(&r),
        Ok(RunPlan::Rotate { input: "cat.png".to_string(), frame_count: 60, frame_delay: 50 })
    );
    r.frames = 0;
    r.frame_delay = Some(80);
    assert_eq!(
        plan_run(&r),
        Ok(RunPlan::Rotate { input: "cat.png".to_string(), frame_count: 1, frame_delay: 80 })
    );
    let mut s = args();
    s.six = Some("assets/six".to_string());
    s.input = None;
    assert_eq!(
        plan_run(&s),
        Ok(RunPlan::Sequence { dir: "assets/six".to_string(), frame_delay: 1500 })
    );
    s.frame_delay = Some(500);
    s.rotate = true;
    assert_eq!(
        plan_run(&s),
        Ok(RunPlan::Sequence { dir: "assets/six".to_string(), frame_delay: 500 })
    );
    let mut m = args();
    m.input = None;
    assert_eq!(plan_run(&m), Err(PlanError::MissingInput));
}

#[test]
fn ramps() {
    assert_eq!(character_ramp(false), vec![' ', '.', ':', '-', '=', '+', '*', '#', '%', '@']);
    assert_eq!(character_ramp(true), vec!['@', '%', '#', '*', '+', '=', '-', ':', '.', ' ']);
}

#[test]
fn target_dims() {
    let mut a = args();
    assert_eq!(compute_target_dims(&a, 41), (100, 41));
    assert_eq!(compute_target_dims(&a, 0), (100, 1));
    a.width = 0;
    assert_eq!(grid_width(&a), 1);
    a.height = Some(0);
    assert_eq!(compute_target_dims(&a, 41), (1, 1));
    a.height = Some(25);
    a.width = 80;
    assert_eq!(compute_target_dims(&a, 41), (80, 25));
}

#[test]
fn frame_text() {
    let lines = vec!["ab".to_string(), "c".to_string()];
    assert_eq!(
        compose_frame(&lines),
        "\x1b[?2026h\x1b[Hab\x1b[K\nc\x1b[K\n\x1b[?2026l"
    );
    assert_eq!(compose_frame(&[]), "\x1b[?2026h\x1b[H\x1b[?2026l");
}

#[test]
fn animation_loops() {
    assert!(Animation::new(0).is_none());
    let mut a = Animation::new(3).unwrap();
    let mut shown = Vec::new();
    for _ in 0..7 {
        shown.push(a.current_frame());
        a.advance();
    }
    assert_eq!(shown, vec![0, 1, 2, 0, 1, 2, 0]);
}

#[test]
fn extensions() {
    for name in ["a.png", "b.JPG", "frame-001.jpeg", "x.Bmp", "y.gif", "z.WEBP", "a.b.png"] {
        assert!(is_sequence_file_exec(name.as_bytes()), "{}", name);
    }
    for name in [".png", "png", "a.txt", "a.png.txt", "..", "a.", "a.pngg", "a.jpe"] {
        assert!(!is_sequence_file_exec(name.as_bytes()), "{}", name);
    }
}

#[test]
fn sequence_order() {
    let names: Vec<Vec<u8>> = ["frame-010.png", "notes.txt", "frame-002.jpg", "Frame-003.PNG", "frame-001.png"]
        .iter()
        .map(|s| s.as_bytes().to_vec())
        .collect();
    assert_eq!(select_sequence_files(&names), Ok(vec![3, 4, 2, 0]));
    let none: Vec<Vec<u8>> = vec![b"a.txt".to_vec(), b".png".to_vec()];
    assert_eq!(select_sequence_files(&none), Err(SequenceError::NoImageFiles));
    assert_eq!(select_sequence_files(&[]), Err(SequenceError::NoImageFiles));
}

#[test]
fn wider_requests_never_shrink_the_grid() {
    let mut a = args();
    let mut last = (0, 0);
    for (w, est) in [(0u32, 0u32), (1, 3), (40, 3), (80, 22), (200, 55)] {
        a.width = w;
        let dims = compute_target_dims(&a, est);
        assert!(dims.0 >= last.0 && dims.1 >= last.1);
        last = dims;
    }
}
