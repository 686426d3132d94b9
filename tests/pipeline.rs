use rubato::Resampler;
use time2freq::config::SincSettings;
use time2freq::layout::interleave;
use time2freq::meter::frames_in;
use time2freq::ring::{new_ring, prefill_silence, try_pop_chunk, try_push};
use time2freq::worker::{push_samples, step};
use time2freq::{
    BlockRouter, DeviceSink, LevelMeter, RingBuffer, Routed, SessionConfig, Worker, WorkerAction, WorkerEvent,
    WorkerState,
};

fn bits(v: &[f32]) -> Vec<u32> {
    v.iter().map(|x| x.to_bits()).collect()
}

fn floats(v: &[u32]) -> Vec<f32> {
    v.iter().map(|x| f32::from_bits(*x)).collect()
}

fn sinc_resampler(from: u32, to: u32, chunk: usize, channels: usize) -> rubato::SincFixedIn<f32> {
    let s = SincSettings::transparent();
    let params = rubato::InterpolationParameters {
        sinc_len: s.sinc_len as usize,
        f_cutoff: s.cutoff_permille as f32 / 1000.0,
        interpolation: rubato::InterpolationType::Linear,
        oversampling_factor: s.oversampling_factor as usize,
        window: rubato::WindowFunction::BlackmanHarris2,
    };
    rubato::SincFixedIn::<f32>::new(
        to as f64 / from as f64,
        s.max_relative_ratio as f64,
        params,
        chunk,
        channels,
    )
    .unwrap()
}

fn resample_chunk(rs: &mut rubato::SincFixedIn<f32>, planar: &[Vec<u32>]) -> Vec<u32> {
    let input: Vec<Vec<f32>> = planar.iter().map(|c| floats(c)).collect();
    let mut output = rs.output_buffer_allocate();
    rs.process_into_buffer(&input, &mut output, None).unwrap();
    let frames = output[0].len();
    let out_bits: Vec<Vec<u32>> = output.iter().map(|c| bits(c)).collect();
    interleave(&out_bits, frames)
}

#[test]
fn sink_on_empty_ring_writes_silence_and_counts_each_frame() {
    let (_p, mut c) = new_ring(8);
    let mut sink = DeviceSink::new(2);
    let mut out = Vec::new();
    let misses = sink.fill(&mut c, 5, &mut out);
    assert_eq!(misses, 5);
    assert_eq!(sink.underruns(), 5);
    assert_eq!(out, vec![0u32; 10]);
    let misses = sink.fill(&mut c, 3, &mut out);
    assert_eq!(misses, 3);
    assert_eq!(sink.underruns(), 8);
    assert_eq!(out.len(), 16);
}

#[test]
fn sink_plays_what_is_there_then_silence() {
    let (mut p, mut c) = new_ring(8);
    for v in [1u32, 2, 3, 4, 5] {
        assert!(try_push(&mut p, v));
    }
    let mut sink = DeviceSink::new(2);
    let mut out = Vec::new();
    let misses = sink.fill(&mut c, 4, &mut out);
    assert_eq!(out, vec![1, 2, 3, 4, 0, 0, 0, 0]);
    assert_eq!(misses, 2);
    // the odd sample stays for the next frame
    assert!(try_push(&mut p, 6));
    let misses = sink.fill(&mut c, 1, &mut out);
    assert_eq!(misses, 0);
    assert_eq!(&out[8..], &[5, 6]);
    assert_eq!(sink.channels(), 2);
}

#[test]
fn push_samples_stops_at_full_ring_and_tap_drops() {
    let (mut p, mut c) = new_ring(3);
    let (mut tp, mut tc) = new_ring(1);
    let samples = vec![10u32, 11, 12, 13, 14];
    let at = push_samples(&mut p, &mut tp, &samples, 0);
    assert_eq!(at, 3);
    let mut out = Vec::new();
    assert!(try_pop_chunk(&mut c, 3, &mut out));
    assert_eq!(out, vec![10, 11, 12]);
    let mut tap = Vec::new();
    assert!(try_pop_chunk(&mut tc, 1, &mut tap));
    assert_eq!(tap, vec![10]);
    let at = push_samples(&mut p, &mut tp, &samples, at);
    assert_eq!(at, 5);
    assert!(try_pop_chunk(&mut c, 2, &mut out));
    assert_eq!(out, vec![10, 11, 12, 13, 14]);
    assert!(try_pop_chunk(&mut tc, 1, &mut tap));
    assert_eq!(tap, vec![10, 13]);
}

#[test]
fn worker_step_table() {
    let (idle, decoding) = (WorkerState::Idle, WorkerState::Decoding);
    let (open, push, next, wait) = (
        WorkerAction::OpenTrack,
        WorkerAction::PushBlock,
        WorkerAction::DecodeNext,
        WorkerAction::AwaitCommand,
    );
    assert_eq!(step(idle, WorkerEvent::PlayRequested), (decoding, open));
    assert_eq!(step(decoding, WorkerEvent::PlayRequested), (decoding, open));
    assert_eq!(step(decoding, WorkerEvent::BlockDecoded), (decoding, push));
    assert_eq!(step(decoding, WorkerEvent::BadPacket), (decoding, next));
    assert_eq!(step(decoding, WorkerEvent::EndOfStream), (idle, wait));
    assert_eq!(step(decoding, WorkerEvent::StreamCorrupt), (idle, wait));
    assert_eq!(step(decoding, WorkerEvent::OpenFailed), (idle, wait));
    assert_eq!(step(idle, WorkerEvent::BlockDecoded), (idle, wait));
}

#[test]
fn second_play_discards_first_track() {
    // first track: staged input that never makes a full chunk
    let (s, a) = step(WorkerState::Idle, WorkerEvent::PlayRequested);
    assert_eq!(a, WorkerAction::OpenTrack);
    let mut router = BlockRouter::new(44100, 48000, 2, 4);
    assert!(matches!(router.route(vec![1u32; 6]), Routed::Waiting));
    // second play arrives before the first track yields anything
    let (s, a) = step(s, WorkerEvent::PlayRequested);
    assert_eq!((s, a), (WorkerState::Decoding, WorkerAction::OpenTrack));
    let mut router = BlockRouter::new(44100, 48000, 2, 4);
    match router.route(vec![2u32; 8]) {
        Routed::Chunk(c) => assert_eq!(c, vec![vec![2u32; 4], vec![2u32; 4]]),
        _ => panic!("second track should fill a chunk on its own"),
    }
}

#[test]
fn idle_poll_keeps_previous_snapshot() {
    let (mut p, mut c) = new_ring(16);
    let mut meter = LevelMeter::new(48000);
    for v in [1u32, 2, 3, 4] {
        assert!(try_push(&mut p, v));
    }
    let (l, r) = meter.drain(&mut c, 1_000_000_000);
    assert_eq!((l.clone(), r.clone()), (vec![1, 3], vec![2, 4]));
    let kept = meter.settle(l.len(), (0.25f32.to_bits(), 0.5f32.to_bits()));
    assert_eq!(kept, (0.25f32.to_bits(), 0.5f32.to_bits()));
    let (l, r) = meter.drain(&mut c, 0);
    assert!(l.is_empty() && r.is_empty());
    let kept = meter.settle(l.len(), (0, 0));
    assert_eq!(kept, (0.25f32.to_bits(), 0.5f32.to_bits()));
    assert_eq!(meter.snapshot(), kept);
}

#[test]
fn meter_drains_no_more_than_elapsed_frames() {
    let (mut p, mut c) = new_ring(64);
    for v in 0..40u32 {
        assert!(try_push(&mut p, v));
    }
    let meter = LevelMeter::new(1000);
    let (l, r) = meter.drain(&mut c, 3_000_000);
    assert_eq!(l, vec![0, 2, 4]);
    assert_eq!(r, vec![1, 3, 5]);
    let (l, _) = meter.drain(&mut c, 2_600_000);
    assert_eq!(l, vec![6, 8, 10]);
    let (l, _) = meter.drain(&mut c, 1_000_000_000);
    assert_eq!(l.len(), 14);
}

#[test]
fn frames_in_rounds_elapsed_time() {
    assert_eq!(frames_in(0, 48000), 0);
    assert_eq!(frames_in(1_000_000_000, 44100), 44100);
    assert_eq!(frames_in(16_666_667, 48000), 800);
    assert_eq!(frames_in(500_000, 1000), 1);
    assert_eq!(frames_in(499_999, 1000), 0);
    assert_eq!(frames_in(u64::MAX, u32::MAX), 79_228_162_495_817_593_516);
}

#[test]
fn equal_rates_reproduce_a_sine_exactly() {
    let rate = 44100u32;
    let sine: Vec<f32> = (0..4410)
        .flat_map(|i| {
            let x = (2.0 * std::f32::consts::PI * 440.0 * i as f32 / rate as f32).sin() * 0.5;
            [x, x]
        })
        .collect();
    let mut router = BlockRouter::new(rate, rate, 2, 1024);
    let mut out = Vec::new();
    for block in sine.chunks(1152) {
        match router.route(bits(block)) {
            Routed::Ready(b) => out.extend(floats(&b)),
            _ => panic!("no resampling at equal rates"),
        }
    }
    assert_eq!(out, sine);
}

#[test]
fn resampling_white_noise_keeps_its_energy() {
    let mut seed: u32 = 12345;
    let mut noise = Vec::new();
    for _ in 0..44100 {
        seed = seed.wrapping_mul(1_664_525).wrapping_add(1_013_904_223);
        noise.push((seed >> 8) as f32 / (1u32 << 24) as f32 * 2.0 - 1.0);
    }
    let chunk = 1024;
    let mut router = BlockRouter::new(44100, 48000, 1, chunk);
    let mut rs = sinc_resampler(44100, 48000, chunk, 1);
    let mut out = Vec::new();
    for block in noise.chunks(1000) {
        if let Routed::Chunk(planar) = router.route(bits(block)) {
            out.extend(floats(&resample_chunk(&mut rs, &planar)));
        }
    }
    let used_in = (out.len() as f64 * 44100.0 / 48000.0) as usize;
    let e_in: f64 = noise[..used_in].iter().map(|x| (*x as f64).powi(2)).sum::<f64>() / 44100.0;
    let e_out: f64 = out[256..].iter().map(|x| (*x as f64).powi(2)).sum::<f64>() / 48000.0;
    let e_in = e_in * (out.len() - 256) as f64 / out.len() as f64;
    let ratio = e_out / e_in;
    println!("energy ratio {ratio}");
    // The kernel cuts off at 0.95 of the Nyquist frequency, so full-band
    // noise loses about the top 5% of its spectrum.
    assert!((ratio - 1.0).abs() <= 0.08, "energy ratio {ratio}");
    assert!(ratio <= 1.0, "energy ratio {ratio}");
}

#[test]
fn sine_through_pipeline_reports_steady_rms_without_underruns() {
    let config = SessionConfig { latency_ms: 100, chunk_frames: 1024, device_rate: 48000, device_channels: 2 };
    let cap = config.ring_capacity();
    let (mut play_p, mut play_c) = new_ring(cap);
    let (mut tap_p, mut tap_c) = new_ring(cap);
    prefill_silence(&mut play_p, config.latency_samples());

    let track_rate = 44100u32;
    let track: Vec<f32> = (0..track_rate as usize * 5)
        .flat_map(|i| {
            let x = (2.0 * std::f32::consts::PI * 441.0 * i as f32 / track_rate as f32).sin() * 0.5;
            [x, x]
        })
        .collect();

    let mut router = BlockRouter::new(track_rate, config.device_rate, 2, config.chunk_frames as usize);
    let mut rs = sinc_resampler(track_rate, config.device_rate, config.chunk_frames as usize, 2);
    let mut sink = DeviceSink::new(2);
    let mut meter = LevelMeter::new(config.device_rate);
    let mut device_out = Vec::new();
    let mut readings = Vec::new();
    let tick_nanos = 10_000_000u64;
    let tick_frames = frames_in(tick_nanos, config.device_rate) as usize;

    let mut device_tick = |play_c: &mut rtrb::Consumer<u32>, tap_c: &mut rtrb::Consumer<u32>| {
        device_out.clear();
        let misses = sink.fill(play_c, tick_frames, &mut device_out);
        let (l, r) = meter.drain(tap_c, tick_nanos);
        let rms = |v: &[u32]| {
            (floats(v).iter().map(|x| x * x).sum::<f32>() / v.len().max(1) as f32).sqrt()
        };
        let fresh = (rms(&l).to_bits(), rms(&r).to_bits());
        let snap = meter.settle(l.len(), fresh);
        (misses, snap)
    };

    let mut misses_total = 0u64;
    for block in track.chunks(1152 * 2) {
        let out = match router.route(bits(block)) {
            Routed::Ready(b) => b,
            Routed::Chunk(planar) => resample_chunk(&mut rs, &planar),
            Routed::Waiting => continue,
        };
        let mut at = 0;
        loop {
            at = push_samples(&mut play_p, &mut tap_p, &out, at);
            if at == out.len() {
                break;
            }
            let (misses, snap) = device_tick(&mut play_c, &mut tap_c);
            misses_total += misses;
            readings.push(snap);
        }
    }
    assert_eq!(misses_total, 0);
    let expected = 0.5f32 / 2f32.sqrt();
    let steady = &readings[readings.len() / 3..];
    assert!(steady.len() > 100);
    for (l, r) in steady {
        let (l, r) = (f32::from_bits(*l), f32::from_bits(*r));
        assert!((l - expected).abs() < 0.02, "left {l}");
        assert!((r - expected).abs() < 0.02, "right {r}");
    }
}

#[test]
fn fill_from_empty_owned_ring_is_silence() {
    let mut ring = RingBuffer::new(8);
    let mut sink = DeviceSink::new(2);
    let mut out = Vec::new();
    assert_eq!(sink.fill_from_ring(&mut ring, 4, &mut out), 4);
    assert_eq!(out, vec![0u32; 8]);
    assert_eq!(sink.underruns(), 4);
    assert_eq!(ring.len(), 0);
}

#[test]
fn fill_from_owned_ring_plays_whole_frames_first() {
    let mut ring = RingBuffer::new(8);
    for v in [1u32, 2, 3, 4, 5] {
        assert!(ring.try_push(v));
    }
    let mut sink = DeviceSink::new(2);
    let mut out = Vec::new();
    assert_eq!(sink.fill_from_ring(&mut ring, 4, &mut out), 2);
    assert_eq!(out, vec![1, 2, 3, 4, 0, 0, 0, 0]);
    assert_eq!(ring.len(), 1);
}

#[test]
fn worker_drops_first_track_on_second_play() {
    let mut w = Worker::new();
    assert_eq!(w.handle(WorkerEvent::PlayRequested), WorkerAction::OpenTrack);
    w.begin_track(BlockRouter::new(44100, 48000, 2, 4));
    assert_eq!(w.handle(WorkerEvent::BlockDecoded), WorkerAction::PushBlock);
    assert!(matches!(w.route(vec![1u32; 6]), Some(Routed::Waiting)));
    assert_eq!(w.handle(WorkerEvent::PlayRequested), WorkerAction::OpenTrack);
    assert_eq!(w.state(), WorkerState::Decoding);
    assert!(w.route(vec![1u32; 6]).is_none());
    w.begin_track(BlockRouter::new(44100, 48000, 2, 4));
    match w.route(vec![2u32; 8]) {
        Some(Routed::Chunk(c)) => assert_eq!(c, vec![vec![2u32; 4], vec![2u32; 4]]),
        _ => panic!("expected a chunk of the second track only"),
    }
    assert_eq!(w.handle(WorkerEvent::EndOfStream), WorkerAction::AwaitCommand);
    assert!(w.route(vec![3u32; 8]).is_none());
}

#[test]
fn meter_drains_only_whole_frames() {
    let (mut p, mut c) = new_ring(16);
    for v in [1u32, 2, 3, 4, 5] {
        assert!(try_push(&mut p, v));
    }
    let meter = LevelMeter::new(48000);
    let (l, r) = meter.drain(&mut c, 1_000_000_000);
    assert_eq!((l, r), (vec![1, 3], vec![2, 4]));
    let mut rest = Vec::new();
    assert!(try_pop_chunk(&mut c, 1, &mut rest));
    assert_eq!(rest, vec![5]);
}

#[test]
fn push_samples_with_room_pushes_everything() {
    let (mut p, mut c) = new_ring(8);
    let (mut tp, mut tc) = new_ring(8);
    let samples: Vec<u32> = (1..=8).collect();
    assert_eq!(push_samples(&mut p, &mut tp, &samples, 0), 8);
    let (mut out, mut tap) = (Vec::new(), Vec::new());
    assert!(try_pop_chunk(&mut c, 8, &mut out));
    assert!(try_pop_chunk(&mut tc, 8, &mut tap));
    assert_eq!(out, samples);
    assert_eq!(tap, samples);
}
