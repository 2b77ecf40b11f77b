use vsm::dsp::{is_level, samples_finite, Draw, DspError, State, Stream};
use vsm::math::Vec3;

/// A filter that turns the input to one side, and rings for 300 frames.
struct Filter {
    held: i32,
}

impl Filter {
    fn apply(&mut self, mono: &[f32]) -> (Vec<u32>, Vec<u32>) {
        self.held = 300;
        let side = |gain: f32| mono.iter().map(|v| (v * gain).to_bits()).collect();
        (side(0.25), side(0.75))
    }

    fn tail(&mut self, block: usize) -> (Vec<u32>, Vec<u32>, bool) {
        self.held -= block as i32;
        let quiet = vec![0.001f32.to_bits(); block];
        (quiet.clone(), quiet, self.held <= 0)
    }
}

struct Binaural {
    stream: Stream,
    filter: Filter,
}

impl Binaural {
    fn new(block: usize) -> Self {
        Self { stream: Stream::new(block).unwrap(), filter: Filter { held: 0 } }
    }

    fn process(&mut self, input: &[f32], output: &mut [f32], at: [f64; 3]) -> Result<(), DspError> {
        output.fill(0.);
        let bits: Vec<u32> = input.iter().map(|v| v.to_bits()).collect();
        let distance = at[0].hypot(at[1]).hypot(at[2]);
        let apart = distance.is_finite() && distance >= 1e-6;
        let gain = 4f64.min(1. / distance.max(0.25));
        let p = at.map(f64::to_bits);
        let position = Vec3 { x: p[0], y: p[1], z: p[2] };
        let from =
            f64::from_bits(self.stream.accept(&bits, output.len(), position, apart, gain.to_bits())?);
        let n = input.len() as f64;
        let mono: Vec<f32> = (0..input.len())
            .map(|i| (input[i] as f64 * (from + (gain - from) * (i + 1) as f64 / n)) as f32)
            .collect();
        self.stream.faded(&mono.iter().map(|v| v.to_bits()).collect::<Vec<_>>())?;
        let (left, right) = self.filter.apply(&mono);
        let samples = self.stream.processed(gain.to_bits(), &left, &right)?;
        for (o, s) in output.iter_mut().zip(samples) {
            *o = f32::from_bits(s);
        }
        Ok(())
    }

    fn drain(&mut self, output: &mut [f32]) -> Result<(usize, bool), DspError> {
        output.fill(0.);
        let block = self.stream.block;
        match self.stream.draw(output.len())? {
            Draw::Over => Ok((0, true)),
            Draw::Silence => {
                let (left, right) = self.filter.apply(&vec![0.; block]);
                let part = self.stream.silenced(&left, &right, self.filter.held)?;
                Ok((part.frames, part.complete))
            }
            Draw::Rest => {
                let held = self.filter.held;
                if !self.stream.holds(held) {
                    return Ok((0, true));
                }
                let (left, right, complete) = self.filter.tail(block);
                let part = self.stream.drawn(&left, &right, held, complete)?;
                for (o, s) in output.iter_mut().zip(part.samples) {
                    *o = f32::from_bits(s);
                }
                Ok((part.frames, part.complete))
            }
        }
    }
}

#[test]
fn sdk_rejection_keeps_history_and_drain_finishes() {
    let mut a = Binaural::new(256);
    let mut b = Binaural::new(256);
    let mut input = [0.; 256];
    input[0] = 0.1;
    let (mut out, mut expected) = ([0.; 512], [0.; 512]);
    a.process(&input, &mut out, [1., 0., -1.]).unwrap();
    b.process(&input, &mut expected, [1., 0., -1.]).unwrap();
    assert_eq!(out, expected);
    let mut bad = input;
    bad[12] = f32::NAN;
    assert!(a.process(&bad, &mut out, [1., 0., -1.]).is_err());
    assert!(out.iter().all(|v| *v == 0.));
    a.process(&input, &mut out, [1., 0., -1.]).unwrap();
    b.process(&input, &mut expected, [1., 0., -1.]).unwrap();
    assert_eq!(out, expected);
    let mut frames = 0;
    loop {
        let (n, done) = a.drain(&mut out).unwrap();
        frames += n;
        assert!(frames < 48000);
        if done {
            break;
        }
    }
    assert!(frames >= 256);
    assert!(a.process(&input, &mut out, [1., 0., -1.]).is_err());
    a.stream.reset();
    a.process(&input, &mut out, [1., 0., -1.]).unwrap();
}

#[test]
fn tails_are_drawn_to_their_last_frame() {
    let mut a = Binaural::new(256);
    let mut out = [0.; 512];
    assert_eq!(a.drain(&mut out), Ok((0, true)));
    a.stream.reset();
    a.process(&[0.5; 256], &mut out, [0., 0., -1.]).unwrap();
    assert_eq!(a.drain(&mut out), Ok((256, false)));
    assert_eq!(a.drain(&mut out), Ok((256, false)));
    assert_eq!(a.drain(&mut out), Ok((44, true)));
    assert!(out[..88].iter().all(|v| *v == 0.001) && out[88..].iter().all(|v| *v == 0.));
    assert_eq!(a.drain(&mut out), Ok((0, true)));
}

#[test]
fn blocks_are_refused_for_what_is_wrong_with_them() {
    for block in [128, 256, 512, 1024] {
        assert_eq!(Stream::new(block).unwrap().latency_frames(), block / 4);
    }
    assert_eq!(Stream::new(300), Err(DspError::UnsupportedBlock));
    let mut a = Binaural::new(128);
    let mut out = [0.; 256];
    assert_eq!(a.process(&[0.; 127], &mut out, [1., 0., 0.]), Err(DspError::BlockSize));
    assert_eq!(a.process(&[0.; 128], &mut out, [0.; 3]), Err(DspError::Position));
    assert_eq!(a.process(&[0.; 128], &mut out, [f64::NAN, 0., 0.]), Err(DspError::Position));
    assert_eq!(a.process(&[f32::INFINITY; 128], &mut out, [1., 0., 0.]), Err(DspError::Audio));
    assert_eq!(a.process(&[f32::MAX; 128], &mut out, [0.25, 0., 0.]), Err(DspError::Gain));
    assert_eq!(a.stream.draw(12), Err(DspError::BlockSize));
}

#[test]
fn unusable_output_starts_the_stream_again() {
    let mut s = Stream::new(128).unwrap();
    let (good, bad) = (vec![0u32; 128], vec![f32::NAN.to_bits(); 128]);
    s.processed(7, &good, &good).unwrap();
    assert!(s.has_input && s.previous_gain == 7);
    assert_eq!(s.processed(8, &good, &bad).unwrap_err(), DspError::Output);
    assert_eq!(s, Stream::new(128).unwrap());
    s.processed(7, &good, &good).unwrap();
    assert_eq!(s.silenced(&bad, &good, 5).unwrap_err(), DspError::Tail);
    assert_eq!(s.state, State::Accepting);
    assert!(samples_finite(&good) && !samples_finite(&bad));
}

#[test]
fn levels_lie_between_nothing_and_one() {
    let bits = f64::to_bits;
    assert!(is_level(8, bits(0.1), bits(0.5)));
    assert!(!is_level(7, bits(0.1), bits(0.5)));
    assert!(!is_level(8, bits(f64::NAN), bits(1.)));
    assert!(!is_level(8, bits(0.), bits(1.5)));
}
