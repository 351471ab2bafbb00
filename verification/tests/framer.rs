use open_conv::framer::Framer;

/// Run `input` (one channel) through a framer whose frame processing is
/// `f`, one sample at a time, and collect what comes out.
fn run(part: usize, input: &[f32], f: impl Fn(&[f32]) -> Vec<f32>) -> Vec<f32> {
    let mut fr: Framer<f32> = Framer::new(1, part, 0.0);
    let mut out = Vec::new();
    let mut ys = vec![0.0f32];
    for &x in input {
        if fr.push_sample(&vec![x]) {
            let y = f(fr.frame_in(0));
            fr.emit_frame(&vec![y]);
        }
        fr.pop_sample(&mut ys);
        out.push(ys[0]);
    }
    out
}

#[test]
fn latency_is_one_partition() {
    // An identity frame process: the impulse must come out exactly one
    // partition later.
    let mut x = vec![0.0f32; 512];
    x[0] = 1.0;
    let y = run(128, &x, |frame| frame.to_vec());
    let idx = y
        .iter()
        .enumerate()
        .max_by(|a, b| a.1.abs().partial_cmp(&b.1.abs()).unwrap())
        .unwrap()
        .0;
    assert_eq!(idx, 128);
}

#[test]
fn framer_output_is_input_delayed_by_partition() {
    let part = 4;
    let x: Vec<f32> = (1..=20).map(|v| v as f32).collect();
    let y = run(part, &x, |frame| frame.to_vec());
    for t in 0..x.len() {
        let want = if t < part { 0.0 } else { x[t - part] };
        assert_eq!(y[t], want, "sample {t}");
    }
}

#[test]
fn framer_hands_each_frame_to_processing_once() {
    let part = 3;
    let x: Vec<i32> = (0..9).collect();
    let mut fr: Framer<i32> = Framer::new(2, part, -1);
    let mut frames = Vec::new();
    let mut outs = Vec::new();
    for &v in &x {
        let ready = fr.push_sample(&vec![v, 100 + v]);
        if ready {
            let a = fr.frame_in(0).clone();
            let b = fr.frame_in(1).clone();
            frames.push((a.clone(), b.clone()));
            let ya: Vec<i32> = a.iter().map(|s| s * 10).collect();
            let yb: Vec<i32> = b.iter().map(|s| s * 10).collect();
            fr.emit_frame(&vec![ya, yb]);
        }
        let mut ys = vec![0, 0];
        fr.pop_sample(&mut ys);
        outs.push(ys);
    }
    assert_eq!(frames.len(), 3);
    assert_eq!(frames[0], (vec![0, 1, 2], vec![100, 101, 102]));
    assert_eq!(frames[2], (vec![6, 7, 8], vec![106, 107, 108]));
    assert_eq!(outs[0], vec![-1, -1]);
    assert_eq!(outs[2], vec![-1, -1]);
    assert_eq!(outs[3], vec![0, 1000]);
    assert_eq!(outs[8], vec![50, 1050]);
    assert_eq!(fr.partition(), 3);
    assert_eq!(fr.channels(), 2);
}

#[test]
fn framer_reset_restores_priming() {
    let part = 2;
    let mut fr: Framer<i32> = Framer::new(1, part, 0);
    for v in 1..=3 {
        if fr.push_sample(&vec![v]) {
            let y = fr.frame_in(0).clone();
            fr.emit_frame(&vec![y]);
        }
        let mut ys = vec![0];
        fr.pop_sample(&mut ys);
    }
    fr.reset();
    let mut outs = Vec::new();
    for v in 7..=10 {
        if fr.push_sample(&vec![v]) {
            let y = fr.frame_in(0).clone();
            fr.emit_frame(&vec![y]);
        }
        let mut ys = vec![0];
        fr.pop_sample(&mut ys);
        outs.push(ys[0]);
    }
    assert_eq!(outs, vec![0, 0, 7, 8]);
}
